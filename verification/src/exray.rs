//! The exray: an extended array. It owns an implicit treap and the list of
//! aggregate functions the treap maintains, exposes the range and position
//! API, and turns bound violations into errors before anything is touched.
//!
//! The view of an exray is the sequence of its elements in logical order;
//! every contract below speaks of that sequence and of the function list.

use crate::functions::Func;
use crate::treap::{
    clone_treap, collect_elements, drop_treap, find_index, find_mut_index, get_cnt, get_values,
    heap_ok, lemma_empty_tree, lemma_seq_len, lemma_wf_len, lemma_wf_size_ok, make_treap, merge,
    split, tree_wf, seq_of, Link,
};
use vstd::prelude::*;
use vstd::string::StringExecFns;

verus! {

/// The extended array: the name comes from the beginning and the ending of
/// "extended array".
pub struct Exray {
    root: Link,
    functions: Vec<Func>,
}

/// The errors an exray operation can return. Every operation validates its
/// inputs before it touches the tree, so a failed operation leaves the exray
/// exactly as it was.
#[derive(Debug)]
pub enum ExrayError {
    /// An index or a segment bound lies outside the admissible range; the
    /// text names the bound that was violated.
    IndexError(String),
    /// Two exrays maintain different function lists and may not be merged.
    IncompatibleExrayError(String),
}

impl View for Exray {
    type V = Seq<i64>;

    closed spec fn view(&self) -> Seq<i64> {
        seq_of(self.root)
    }
}

impl Exray {
    /// The aggregate functions this exray maintains, in order; the order
    /// defines the position of each value in every returned aggregate
    /// vector.
    pub closed spec fn funcs(&self) -> Seq<Func> {
        self.functions@
    }

    /// The internal invariant: the tree's counts and stored aggregates are
    /// correct for the maintained function list, and the balancing
    /// priorities order the tree as a max-heap. Every constructor
    /// establishes it and every operation preserves it.
    pub closed spec fn well_formed(&self) -> bool {
        tree_wf(self.root, self.functions@) && heap_ok(self.root)
    }

    /// Build an exray holding `elements` in their given order, maintaining
    /// `functions`.
    pub fn new(elements: Vec<i64>, functions: Vec<Func>) -> (exray: Self)
        ensures
            exray.well_formed(),
            exray@ == elements@,
            exray.funcs() == functions@,
    {
        let ghost fns = functions@;
        let mut exray = Exray { root: None, functions };
        proof {
            lemma_empty_tree(fns);
        }
        let mut ind: usize = 0;
        while ind < elements.len()
            invariant
                ind <= elements@.len(),
                exray.well_formed(),
                exray.funcs() == fns,
                exray@ == elements@.take(ind as int),
            decreases elements@.len() - ind,
        {
            let value = elements[ind];
            proof {
                lemma_wf_len(exray.root, fns);
            }
            let _ = exray.insert(ind, value);
            proof {
                assert(elements@.take(ind as int).insert(ind as int, value) =~= elements@.take(
                    ind as int + 1,
                ));
            }
            ind += 1;
        }
        proof {
            assert(elements@.take(elements@.len() as int) =~= elements@);
        }
        exray
    }

    /// The number of elements.
    pub fn len(&self) -> (n: usize)
        requires
            self.well_formed(),
        ensures
            n == self@.len(),
    {
        proof {
            lemma_wf_size_ok(self.root, self.functions@);
            lemma_wf_len(self.root, self.functions@);
        }
        get_cnt(&self.root) as usize
    }

    /// The maintained aggregate functions, in order.
    pub fn functions(&self) -> (functions: &Vec<Func>)
        ensures
            functions@ == self.funcs(),
    {
        &self.functions
    }

    /// Insert `value` so that it becomes the element at position `ind`,
    /// shifting the elements at and after `ind` one place to the right.
    /// Fails, changing nothing, exactly when `ind` lies beyond the end.
    pub fn insert(&mut self, ind: usize, value: i64) -> (result: Result<(), ExrayError>)
        requires
            old(self).well_formed(),
            old(self)@.len() < usize::MAX,
        ensures
            final(self).well_formed(),
            final(self).funcs() == old(self).funcs(),
            ind <= old(self)@.len() ==> result is Ok
                && final(self)@ == old(self)@.insert(ind as int, value),
            ind > old(self)@.len() ==> (result matches Err(ExrayError::IndexError(_)))
                && *final(self) == *old(self),
    {
        if self.len() < ind {
            return Err(ExrayError::IndexError(String::from_str("Index greater than size!")));
        }

        let ghost orig = self@;
        let root = self.root.take();
        let (l_part, r_part) = split(root, ind as u64, &self.functions);

        let mut value_all: Vec<i64> = Vec::new();
        let mut i: usize = 0;
        while i < self.functions.len()
            invariant
                i <= self.functions@.len(),
                value_all@.len() == i,
                forall|j: int|
                    0 <= j < i ==> value_all@[j] == #[trigger] self.functions@[j].agg(seq![value]),
            decreases self.functions@.len() - i,
        {
            let combined = self.functions[i].apply(None, value, None);
            proof {
                crate::functions::lemma_combine_agg(
                    self.functions@[i as int],
                    Seq::empty(),
                    value,
                    Seq::empty(),
                    0,
                    0,
                );
                assert(Seq::<i64>::empty() + seq![value] + Seq::<i64>::empty() =~= seq![value]);
            }
            value_all.push(combined);
            i += 1;
        }
        let new_treap = make_treap(value, value_all);
        let temp = merge(l_part, new_treap, &self.functions);
        self.root = merge(temp, r_part, &self.functions);
        proof {
            assert(self@ =~= orig.insert(ind as int, value));
        }
        Ok(())
    }

    /// Remove the element at position `ind`, shifting the elements after it
    /// one place to the left. Fails, changing nothing, exactly when `ind`
    /// lies at or beyond the end.
    pub fn erase(&mut self, ind: usize) -> (result: Result<(), ExrayError>)
        requires
            old(self).well_formed(),
        ensures
            final(self).well_formed(),
            final(self).funcs() == old(self).funcs(),
            ind < old(self)@.len() ==> result is Ok && final(self)@ == old(self)@.remove(ind as int),
            ind >= old(self)@.len() ==> (result matches Err(ExrayError::IndexError(_)))
                && *final(self) == *old(self),
    {
        if self.len() <= ind {
            return Err(ExrayError::IndexError(String::from_str("Index greater than last index!")));
        }

        let ghost orig = self@;
        let root = self.root.take();
        let (l_part, r_part) = split(root, ind as u64, &self.functions);
        let (mut rl_part, rr_part) = split(r_part, 1, &self.functions);
        drop_treap(&mut rl_part);

        self.root = merge(l_part, rr_part, &self.functions);
        proof {
            assert(orig.skip(ind as int).skip(1) =~= orig.skip(ind as int + 1));
            assert(self@ =~= orig.remove(ind as int));
        }
        Ok(())
    }

    /// Remove the whole segment `[beg_ind, end_ind]`, bounds inclusive.
    /// Fails, changing nothing, exactly when the segment is reversed or its
    /// end lies at or beyond the end of the exray.
    pub fn erase_segment(&mut self, beg_ind: usize, end_ind: usize) -> (result: Result<
        (),
        ExrayError,
    >)
        requires
            old(self).well_formed(),
        ensures
            final(self).well_formed(),
            final(self).funcs() == old(self).funcs(),
            end_ind < beg_ind || end_ind >= old(self)@.len() ==> (result matches Err(
                ExrayError::IndexError(_),
            )) && *final(self) == *old(self),
            beg_ind <= end_ind < old(self)@.len() ==> result is Ok
                && final(self)@ == old(self)@.take(beg_ind as int) + old(self)@.skip(end_ind as int + 1),
    {
        if end_ind < beg_ind {
            return Err(
                ExrayError::IndexError(
                    String::from_str("End index is smaller than begin index!"),
                ),
            );
        }
        if self.len() <= end_ind {
            return Err(
                ExrayError::IndexError(
                    String::from_str("End index is greater than last index!"),
                ),
            );
        }

        let ghost orig = self@;
        let root = self.root.take();
        let (l_part, r_part) = split(root, beg_ind as u64, &self.functions);
        let seg_len: u64 = (end_ind as u64) - (beg_ind as u64) + 1;
        let (mut rl_part, rr_part) = split(r_part, seg_len, &self.functions);
        drop_treap(&mut rl_part);

        self.root = merge(l_part, rr_part, &self.functions);
        proof {
            assert(orig.skip(beg_ind as int).skip(seg_len as int) =~= orig.skip(end_ind as int + 1));
            assert(self@ =~= orig.take(beg_ind as int) + orig.skip(end_ind as int + 1));
        }
        Ok(())
    }

    /// Move every element of `source` into `self`, the first of them landing
    /// at position `ind`; `source` is left empty, with an empty function
    /// list. Fails with `IndexError`, changing nothing, when `ind` lies
    /// beyond the end, and with `IncompatibleExrayError` when the two exrays
    /// do not maintain the very same function list.
    pub fn insert_exray(&mut self, source: &mut Self, ind: usize) -> (result: Result<
        (),
        ExrayError,
    >)
        requires
            old(self).well_formed(),
            old(source).well_formed(),
            old(self)@.len() + old(source)@.len() <= usize::MAX,
        ensures
            final(self).well_formed(),
            final(source).well_formed(),
            ind > old(self)@.len() ==> (result matches Err(ExrayError::IndexError(_)))
                && *final(self) == *old(self) && *final(source) == *old(source),
            ind <= old(self)@.len() && old(self).funcs() != old(source).funcs() ==> (result matches
                Err(ExrayError::IncompatibleExrayError(_))) && *final(self) == *old(self)
                && *final(source) == *old(source),
            ind <= old(self)@.len() && old(self).funcs() == old(source).funcs() ==> result is Ok
                && final(self)@ == old(self)@.take(ind as int) + old(source)@ + old(self)@.skip(
                ind as int,
            ) && final(self).funcs() == old(self).funcs() && final(source)@ == Seq::<i64>::empty()
                && final(source).funcs() == Seq::<Func>::empty(),
    {
        if self.len() < ind {
            return Err(ExrayError::IndexError(String::from_str("Index greater than size!")));
        }
        if self.functions.len() != source.functions.len() {
            proof {
                assert(old(self).funcs() != old(source).funcs());
            }
            return Err(
                ExrayError::IncompatibleExrayError(
                    String::from_str("Different number of functions!"),
                ),
            );
        }
        let len = self.functions.len();
        let mut i: usize = 0;
        while i < len
            invariant
                i <= len,
                len == self.functions@.len(),
                len == source.functions@.len(),
                *self == *old(self),
                *source == *old(source),
                old(self).well_formed(),
                old(source).well_formed(),
                ind <= old(self)@.len(),
                forall|j: int| 0 <= j < i ==> self.functions@[j] == source.functions@[j],
            decreases len - i,
        {
            if self.functions[i] != source.functions[i] {
                return Err(
                    ExrayError::IncompatibleExrayError(String::from_str("Different functions!")),
                );
            }
            i += 1;
        }
        proof {
            assert(self.functions@ =~= source.functions@);
        }

        let ghost orig = self@;
        let root = self.root.take();
        let (l_part, r_part) = split(root, ind as u64, &self.functions);

        let src_root = source.root.take();
        let temp = merge(l_part, src_root, &self.functions);
        self.root = merge(temp, r_part, &self.functions);
        source.functions = Vec::new();
        proof {
            lemma_empty_tree(source.functions@);
            assert(source@ =~= Seq::<i64>::empty());
        }
        Ok(())
    }

    /// Split the segment `[beg_ind, end_ind]` off into an exray of its own,
    /// transferring the nodes without copying them; the segment disappears
    /// from `self`, and the new exray maintains the same function list.
    /// Fails, changing nothing, on the same bounds as `erase_segment`.
    pub fn extract_segment(&mut self, beg_ind: usize, end_ind: usize) -> (result: Result<
        Self,
        ExrayError,
    >)
        requires
            old(self).well_formed(),
        ensures
            final(self).well_formed(),
            final(self).funcs() == old(self).funcs(),
            end_ind < beg_ind || end_ind >= old(self)@.len() ==> (result matches Err(
                ExrayError::IndexError(_),
            )) && *final(self) == *old(self),
            beg_ind <= end_ind < old(self)@.len() ==> (result matches Ok(extracted)
                && extracted.well_formed() && extracted@ == old(self)@.subrange(
                beg_ind as int,
                end_ind as int + 1,
            ) && extracted.funcs() == old(self).funcs()) && final(self)@ == old(self)@.take(
                beg_ind as int,
            ) + old(self)@.skip(end_ind as int + 1),
    {
        if end_ind < beg_ind {
            return Err(
                ExrayError::IndexError(
                    String::from_str("End index is smaller than begin index!"),
                ),
            );
        }
        if self.len() <= end_ind {
            return Err(
                ExrayError::IndexError(String::from_str("End index greater than last index!")),
            );
        }

        let ghost orig = self@;
        let root = self.root.take();
        let (l_part, r_part) = split(root, beg_ind as u64, &self.functions);
        let seg_len: u64 = (end_ind as u64) - (beg_ind as u64) + 1;
        let (rl_part, rr_part) = split(r_part, seg_len, &self.functions);

        self.root = merge(l_part, rr_part, &self.functions);
        let new_functions = clone_functions(&self.functions);
        proof {
            assert(orig.skip(beg_ind as int).skip(seg_len as int) =~= orig.skip(end_ind as int + 1));
            assert(self@ =~= orig.take(beg_ind as int) + orig.skip(end_ind as int + 1));
            assert(orig.skip(beg_ind as int).take(seg_len as int) =~= orig.subrange(
                beg_ind as int,
                end_ind as int + 1,
            ));
        }
        Ok(Exray { root: rl_part, functions: new_functions })
    }

    /// Copy the segment `[beg_ind, end_ind]` into a new, independent exray
    /// maintaining the same function list; `self` keeps all its elements.
    /// Fails, changing nothing, on the same bounds as `erase_segment`.
    pub fn clone_segment(&mut self, beg_ind: usize, end_ind: usize) -> (result: Result<
        Self,
        ExrayError,
    >)
        requires
            old(self).well_formed(),
        ensures
            final(self).well_formed(),
            final(self).funcs() == old(self).funcs(),
            final(self)@ == old(self)@,
            end_ind < beg_ind || end_ind >= old(self)@.len() ==> (result matches Err(
                ExrayError::IndexError(_),
            )),
            beg_ind <= end_ind < old(self)@.len() ==> (result matches Ok(cloned)
                && cloned.well_formed() && cloned@ == old(self)@.subrange(
                beg_ind as int,
                end_ind as int + 1,
            ) && cloned.funcs() == old(self).funcs()),
    {
        if end_ind < beg_ind {
            return Err(
                ExrayError::IndexError(
                    String::from_str("End index is smaller than begin index!"),
                ),
            );
        }
        if self.len() <= end_ind {
            return Err(
                ExrayError::IndexError(String::from_str("End index greater than last index!")),
            );
        }

        let ghost orig = self@;
        let root = self.root.take();
        let (l_part, r_part) = split(root, beg_ind as u64, &self.functions);
        let seg_len: u64 = (end_ind as u64) - (beg_ind as u64) + 1;
        let (rl_part, rr_part) = split(r_part, seg_len, &self.functions);

        let new_root = clone_treap(&rl_part);

        let back = merge(rl_part, rr_part, &self.functions);
        self.root = merge(l_part, back, &self.functions);
        let new_functions = clone_functions(&self.functions);
        proof {
            assert(self@ =~= orig);
            assert(orig.skip(beg_ind as int).take(seg_len as int) =~= orig.subrange(
                beg_ind as int,
                end_ind as int + 1,
            ));
        }
        Ok(Exray { root: new_root, functions: new_functions })
    }

    /// The aggregate vector of the segment `[beg_ind, end_ind]`: one value
    /// per maintained function, each the aggregate of exactly that segment.
    /// The exray holds the same elements afterwards. Fails, changing
    /// nothing, on the same bounds as `erase_segment`.
    pub fn segment_functions_values(&mut self, beg_ind: usize, end_ind: usize) -> (result: Result<
        Vec<i64>,
        ExrayError,
    >)
        requires
            old(self).well_formed(),
        ensures
            final(self).well_formed(),
            final(self).funcs() == old(self).funcs(),
            final(self)@ == old(self)@,
            end_ind < beg_ind || end_ind >= old(self)@.len() ==> (result matches Err(
                ExrayError::IndexError(_),
            )),
            beg_ind <= end_ind < old(self)@.len() ==> (result matches Ok(values)
                && values@.len() == old(self).funcs().len() && (forall|i: int|
                0 <= i < old(self).funcs().len() ==> values@[i]
                    == #[trigger] old(self).funcs()[i].agg(
                    old(self)@.subrange(beg_ind as int, end_ind as int + 1),
                ))),
    {
        if end_ind < beg_ind {
            return Err(
                ExrayError::IndexError(
                    String::from_str("End index is smaller than begin index!"),
                ),
            );
        }
        if self.len() <= end_ind {
            return Err(
                ExrayError::IndexError(String::from_str("End index greater than last index!")),
            );
        }

        let ghost orig = self@;
        let root = self.root.take();
        let (l_part, r_part) = split(root, beg_ind as u64, &self.functions);
        let seg_len: u64 = (end_ind as u64) - (beg_ind as u64) + 1;
        let (rl_part, rr_part) = split(r_part, seg_len, &self.functions);

        proof {
            lemma_seq_len(rl_part);
            assert(orig.skip(beg_ind as int).take(seg_len as int) =~= orig.subrange(
                beg_ind as int,
                end_ind as int + 1,
            ));
        }
        let values = get_values(&rl_part);

        let back = merge(rl_part, rr_part, &self.functions);
        self.root = merge(l_part, back, &self.functions);
        proof {
            assert(self@ =~= orig);
        }
        Ok(values)
    }

    /// The aggregate vector of the whole exray: one value per maintained
    /// function; empty when the exray is empty.
    pub fn functions_values(&self) -> (values: Vec<i64>)
        requires
            self.well_formed(),
        ensures
            self@.len() == 0 ==> values@.len() == 0,
            self@.len() > 0 ==> values@.len() == self.funcs().len() && (forall|i: int|
                0 <= i < self.funcs().len() ==> values@[i] == #[trigger] self.funcs()[i].agg(
                    self@,
                )),
    {
        proof {
            lemma_seq_len(self.root);
            if self.root.is_none() {
                lemma_empty_tree(self.functions@);
            }
        }
        get_values(&self.root)
    }

    /// Recompute the aggregates along the path to position `ind`. The
    /// elements are left exactly as they are; this exists for callers that
    /// know that position was touched. Fails, changing nothing, exactly when
    /// `ind` lies at or beyond the end.
    pub fn recover_fvalues(&mut self, ind: usize) -> (result: Result<(), ExrayError>)
        requires
            old(self).well_formed(),
        ensures
            final(self).well_formed(),
            final(self).funcs() == old(self).funcs(),
            final(self)@ == old(self)@,
            ind < old(self)@.len() ==> result is Ok,
            ind >= old(self)@.len() ==> (result matches Err(ExrayError::IndexError(_)))
                && *final(self) == *old(self),
    {
        if self.len() <= ind {
            return Err(ExrayError::IndexError(String::from_str("Index greater than last index!")));
        }

        let ghost orig = self@;
        let root = self.root.take();
        let (l_part, r_part) = split(root, ind as u64, &self.functions);
        let (rl_part, rr_part) = split(r_part, 1, &self.functions);

        let back = merge(rl_part, rr_part, &self.functions);
        self.root = merge(l_part, back, &self.functions);
        proof {
            assert(self@ =~= orig);
        }
        Ok(())
    }

    /// All elements, in order.
    pub fn to_vec(&self) -> (elements: Vec<i64>)
        ensures
            elements@ == self@,
    {
        let mut result: Vec<i64> = Vec::new();
        collect_elements(&self.root, &mut result);
        proof {
            assert(result@ =~= self@);
        }
        result
    }

    /// The element at position `ind`.
    pub fn get(&self, ind: usize) -> (value: i64)
        requires
            self.well_formed(),
            ind < self@.len(),
        ensures
            value == self@[ind as int],
    {
        proof {
            lemma_wf_size_ok(self.root, self.functions@);
        }
        *find_index(&self.root, ind as u64)
    }

    /// Replace the element at position `ind` with `value` and return the
    /// element it replaces; the aggregates along the path to the node are
    /// recomputed at once, so no separate recovery step is owed. Fails,
    /// changing nothing, exactly when `ind` lies at or beyond the end.
    pub fn set(&mut self, ind: usize, value: i64) -> (result: Result<i64, ExrayError>)
        requires
            old(self).well_formed(),
        ensures
            final(self).well_formed(),
            final(self).funcs() == old(self).funcs(),
            ind < old(self)@.len() ==> (result matches Ok(prev) && prev == old(self)@[ind as int])
                && final(self)@ == old(self)@.update(ind as int, value),
            ind >= old(self)@.len() ==> (result matches Err(ExrayError::IndexError(_)))
                && *final(self) == *old(self),
    {
        if self.len() <= ind {
            return Err(ExrayError::IndexError(String::from_str("Index greater than last index!")));
        }
        let prev = find_mut_index(&mut self.root, ind as u64, value, &self.functions);
        Ok(prev)
    }
}

/// A copy of a function list, element for element.
fn clone_functions(functions: &Vec<Func>) -> (cloned: Vec<Func>)
    ensures
        cloned@ == functions@,
{
    let mut cloned: Vec<Func> = Vec::new();
    let mut i: usize = 0;
    while i < functions.len()
        invariant
            i <= functions@.len(),
            cloned@ == functions@.take(i as int),
        decreases functions@.len() - i,
    {
        cloned.push(functions[i]);
        proof {
            assert(functions@.take(i as int).push(functions@[i as int]) =~= functions@.take(
                i as int + 1,
            ));
        }
        i += 1;
    }
    proof {
        assert(functions@.take(functions@.len() as int) =~= functions@);
    }
    cloned
}

impl Clone for Exray {
    /// A deep copy: the clone holds the same elements and maintains the same
    /// functions, and shares no node with the original.
    fn clone(&self) -> (cloned: Self)
        ensures
            cloned@ == self@,
            cloned.funcs() == self.funcs(),
            self.well_formed() ==> cloned.well_formed(),
    {
        Exray { root: clone_treap(&self.root), functions: clone_functions(&self.functions) }
    }
}

/// Inserting `v` at position `i` places `v` at position `i`, keeps every
/// earlier element in its place and shifts the elements from `i` on one
/// place to the right; this pins down what `insert` followed by `to_vec`
/// shows.
pub proof fn lemma_insert_order(s: Seq<i64>, i: int, v: i64)
    requires
        0 <= i <= s.len(),
    ensures
        s.insert(i, v).len() == s.len() + 1,
        s.insert(i, v)[i] == v,
        forall|j: int| 0 <= j < i ==> s.insert(i, v)[j] == s[j],
        forall|j: int| i < j <= s.len() ==> s.insert(i, v)[j] == s[j - 1],
{
}

/// Erasing position `i` removes exactly that element, keeps every earlier
/// element in its place and shifts the elements after `i` one place to the
/// left; this pins down what `erase` followed by `to_vec` shows.
pub proof fn lemma_erase_order(s: Seq<i64>, i: int)
    requires
        0 <= i < s.len(),
    ensures
        s.remove(i).len() == s.len() - 1,
        forall|j: int| 0 <= j < i ==> s.remove(i)[j] == s[j],
        forall|j: int| i <= j < s.len() - 1 ==> s.remove(i)[j] == s[j + 1],
{
}

} // verus!
