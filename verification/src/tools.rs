use std::cell::BorrowError;
use std::cell::BorrowMutError;
use std::cell::Ref;
use std::cell::RefCell;
use std::cell::RefMut;
use std::rc::Rc;
use vstd::prelude::*;

verus! {

/// `std::cell::RefCell`, a cell whose borrows are counted while the program
/// runs. Nothing is claimed of what it holds.
#[verifier::external_type_specification]
#[verifier::external_body]
#[verifier::reject_recursive_types(T)]
pub struct ExRefCell<T: ?Sized>(RefCell<T>);

/// `std::cell::Ref`, the guard of a shared borrow of a `RefCell`.
#[verifier::external_type_specification]
#[verifier::external_body]
#[verifier::reject_recursive_types(T)]
pub struct ExRef<'b, T: ?Sized>(Ref<'b, T>);

/// `std::cell::RefMut`, the guard of the one exclusive borrow of a `RefCell`.
#[verifier::external_type_specification]
#[verifier::external_body]
#[verifier::reject_recursive_types(T)]
pub struct ExRefMut<'b, T: ?Sized + 'b>(RefMut<'b, T>);

/// `std::cell::BorrowError`, which `try_borrow` returns while the cell is
/// borrowed exclusively.
#[verifier::external_type_specification]
#[verifier::external_body]
pub struct ExBorrowError(BorrowError);

/// `std::cell::BorrowMutError`, which `try_borrow_mut` returns while the cell
/// is borrowed at all.
#[verifier::external_type_specification]
#[verifier::external_body]
pub struct ExBorrowMutError(BorrowMutError);

/// `RefCell::new` wraps a value. Nothing is claimed of the cell.
pub assume_specification<T>[ RefCell::<T>::new ](value: T) -> (cell: RefCell<T>)
;

/// `RefCell::try_borrow` hands out a shared guard, or an error while the cell
/// is borrowed exclusively. It does not panic. Which of the two comes back
/// depends on the guards that are alive, so nothing is claimed of it.
pub assume_specification<'a, T: ?Sized>[ RefCell::<T>::try_borrow ](cell: &'a RefCell<T>) -> (r:
    Result<Ref<'a, T>, BorrowError>)
;

/// `RefCell::try_borrow_mut` hands out the exclusive guard, or an error while
/// the cell is borrowed at all. It does not panic. Which of the two comes back
/// depends on the guards that are alive, so nothing is claimed of it.
pub assume_specification<'a, T: ?Sized>[ RefCell::<T>::try_borrow_mut ](cell: &'a RefCell<T>) -> (r:
    Result<RefMut<'a, T>, BorrowMutError>)
;

/// `Rc::clone` on a counted pointer to a cell: the result points to the same
/// cell as `rc`.
#[verifier::external_body]
fn share<T>(rc: &Rc<RefCell<T>>) -> (other: Rc<RefCell<T>>)
    ensures
        other == *rc,
{
    Rc::clone(rc)
}

/// A value with several owners, each of which may read it and write to it.
///
/// All clones of an `RcRef` reach the same value. What that value is at a given
/// moment depends on what every other owner did before, so no contract here
/// speaks of it: the type is an escape from the ownership rules that the
/// contracts of the other modules rest on, and none of them uses it.
#[verifier::reject_recursive_types(T)]
pub struct RcRef<T>(Rc<RefCell<T>>);

impl<T> RcRef<T> {
    /// A new shared value with one owner.
    pub fn new(value: T) -> RcRef<T> {
        RcRef(Rc::new(RefCell::new(value)))
    }

    /// A guard to read the value through, or `None` while a guard of `get_mut`
    /// is alive on any clone.
    pub fn get(&self) -> Option<Ref<'_, T>> {
        // The cell answers by the guards that are alive when it is asked:
        // `granted` says what becomes of either answer.
        let answer = self.0.try_borrow();
        granted(answer)
    }

    /// A guard to write the value through, or `None` while any other guard is
    /// alive on any clone.
    pub fn get_mut(&mut self) -> Option<RefMut<'_, T>> {
        // The cell answers by the guards that are alive when it is asked:
        // `granted` says what becomes of either answer.
        let answer = self.0.try_borrow_mut();
        granted(answer)
    }

    /// Whether two owners reach the same value.
    pub closed spec fn same_value(&self, other: &RcRef<T>) -> bool {
        self.0 == other.0
    }
}

impl<T> Clone for RcRef<T> {
    /// One more owner of the same value.
    fn clone(&self) -> (other: Self)
        ensures
            other.same_value(self),
    {
        RcRef(share(&self.0))
    }
}

/// What comes of asking a cell for a guard: the guard where the cell gave
/// one, and nothing where it refused.
pub fn granted<G, E>(answer: Result<G, E>) -> (guard: Option<G>)
    ensures
        answer matches Ok(given) ==> guard == Some(given),
        answer is Err ==> guard is None,
{
    match answer {
        Ok(given) => Some(given),
        Err(_) => None,
    }
}

/// A drawing record that can feed a content hash.
pub trait LayoutHash: Sized {
    /// The bytes that stand for the record: every number it holds, in the
    /// order of its fields.
    spec fn hash_bytes(&self) -> Seq<u8>;

    /// The number of bytes that stand for a record of this kind.
    spec fn hash_len() -> nat;

    /// Appends the record's bytes to `out`.
    fn hash(&self, out: &mut Vec<u8>)
        ensures
            final(out)@ == old(out)@ + self.hash_bytes(),
    ;

    /// All records of a kind have as many bytes, and two records with the
    /// same bytes are the same record.
    proof fn lemma_hash_bytes(&self, other: &Self)
        ensures
            self.hash_bytes().len() == Self::hash_len(),
            self.hash_bytes() == other.hash_bytes() ==> self == other,
    ;
}

} // verus!
