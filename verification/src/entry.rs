//! The capability contract every named record type offers.
//!
//! A record is a flat collection of string fields in a fixed display
//! order; field `0` is always the record's name. The selection menu is
//! written once against this trait and reused for every record type.

use vstd::prelude::*;

verus! {

pub trait Entry: Sized {
    /// How many fields a record of this type has.
    spec fn spec_field_count() -> nat;

    /// The record's field values in display order; field `0` is the name.
    spec fn spec_fields(&self) -> Seq<Seq<char>>;

    /// The field values a freshly created record starts from.
    spec fn spec_default_fields() -> Seq<Seq<char>>;

    /// The display labels of the fields, in display order.
    spec fn spec_labels() -> Seq<Seq<char>>;

    proof fn lemma_field_count_bounds()
        ensures
            1 <= Self::spec_field_count() <= 0xffff,
    ;

    proof fn lemma_fields_len(&self)
        ensures
            self.spec_fields().len() == Self::spec_field_count(),
    ;

    proof fn lemma_default_fields_len()
        ensures
            Self::spec_default_fields().len() == Self::spec_field_count(),
    ;

    proof fn lemma_labels_len()
        ensures
            Self::spec_labels().len() == Self::spec_field_count(),
    ;

    fn field_count() -> (r: usize)
        ensures
            r as nat == Self::spec_field_count(),
    ;

    /// A record with the default field values.
    fn default_entry() -> (r: Self)
        ensures
            r.spec_fields() == Self::spec_default_fields(),
    ;

    /// A copy of the record with the same field values.
    fn clone_entry(&self) -> (r: Self)
        ensures
            r.spec_fields() == self.spec_fields(),
    ;

    fn get_entry_name(&self) -> (r: String)
        ensures
            r@ == self.spec_fields()[0],
    ;

    fn set_entry_name(&mut self, name: &str)
        ensures
            final(self).spec_fields() == old(self).spec_fields().update(0, name@),
    ;

    fn get_value_from_index(&self, index: usize) -> (r: String)
        ensures
            r@ == if (index as nat) < Self::spec_field_count() {
                self.spec_fields()[index as int]
            } else {
                Seq::<char>::empty()
            },
    ;

    fn set_value_from_index(&mut self, index: usize, value: &str)
        ensures
            final(self).spec_fields() == if (index as nat) < Self::spec_field_count() {
                old(self).spec_fields().update(index as int, value@)
            } else {
                old(self).spec_fields()
            },
    ;

    /// The display labels of the fields, parallel to the values.
    fn get_entry_names(&self) -> (r: Vec<String>)
        ensures
            r@.len() == Self::spec_field_count(),
            forall|k: int| 0 <= k < r@.len() ==> #[trigger] r@[k]@ == Self::spec_labels()[k],
    ;

    fn get_entry_values(&self) -> (r: Vec<String>)
        ensures
            r@.len() == Self::spec_field_count(),
            forall|k: int| 0 <= k < r@.len() ==> #[trigger] r@[k]@ == self.spec_fields()[k],
    ;

    /// Rebuild a record from its field values, in display order.
    fn from_values(values: &Vec<String>) -> (r: Self)
        requires
            values@.len() == Self::spec_field_count(),
        ensures
            r.spec_fields().len() == Self::spec_field_count(),
            forall|k: int|
                0 <= k < values@.len() ==> #[trigger] r.spec_fields()[k] == values@[k]@,
    ;
}

} // verus!
