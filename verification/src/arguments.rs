//! The bounded list that holds a command's arguments.
//!
//! The list is an `arrayvec::ArrayVec`. Verus does not look inside it: what it
//! holds is named by [`words_in`], and each operation on it that the command
//! model uses is stated here over that name and believed, not proved.

use vstd::prelude::*;
use arrayvec::ArrayVec;
use crate::word::Word;

verus! {

/// The maximum number of arguments a command can have.
pub const MAX_ARGS: usize = 8;

/// `arrayvec::ArrayVec`: a vector of at most `CAP` items, kept in place.
#[verifier::external_type_specification]
#[verifier::external_body]
#[verifier::reject_recursive_types(T)]
pub struct ExArrayVec<T, const CAP: usize>(ArrayVec<T, CAP>);

/// The words that a list holds, in the order in which it hands them out.
pub uninterp spec fn words_in(list: ArrayVec<Word, MAX_ARGS>) -> Seq<Word>;

/// `ArrayVec::new`: a list that holds nothing.
#[verifier::external_body]
pub(crate) fn empty_list() -> (list: ArrayVec<Word, MAX_ARGS>)
    ensures
        words_in(list) == Seq::<Word>::empty(),
{
    ArrayVec::new()
}

/// `ArrayVec::as_slice`: the words of the list as a slice, in order.
#[verifier::external_body]
pub(crate) fn list_as_slice(list: &ArrayVec<Word, MAX_ARGS>) -> (words: &[Word])
    ensures
        words@ == words_in(*list),
{
    list.as_slice()
}

/// Assignment through `ArrayVec::as_mut_slice`: the word at index `i` is
/// replaced and every other word stays where it is. The index must be within
/// the list, as the assignment panics otherwise; within it, it does not.
#[verifier::external_body]
pub(crate) fn list_set(list: &mut ArrayVec<Word, MAX_ARGS>, i: usize, word: Word)
    requires
        i < words_in(*old(list)).len(),
    ensures
        words_in(*final(list)) == words_in(*old(list)).update(i as int, word),
    no_unwind
{
    list.as_mut_slice()[i] = word;
}

/// `ArrayVec::try_push`: while the list holds fewer words than its capacity,
/// the word is added at the end and the answer is `true`; a full list is left
/// as it was and the answer is `false`. Neither way does it panic.
#[verifier::external_body]
pub(crate) fn list_try_push(list: &mut ArrayVec<Word, MAX_ARGS>, word: Word) -> (pushed: bool)
    ensures
        pushed == (words_in(*old(list)).len() < MAX_ARGS),
        pushed ==> words_in(*final(list)) == words_in(*old(list)).push(word),
        !pushed ==> words_in(*final(list)) == words_in(*old(list)),
    no_unwind
{
    list.try_push(word).is_ok()
}

/// `ArrayVec::clone`: a second list that holds the same words in the same
/// order.
#[verifier::external_body]
pub(crate) fn list_clone(list: &ArrayVec<Word, MAX_ARGS>) -> (copy: ArrayVec<Word, MAX_ARGS>)
    ensures
        words_in(copy) == words_in(*list),
{
    list.clone()
}

} // verus!
