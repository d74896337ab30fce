use vstd::prelude::*;

use crate::data::_type::lemma_bytes_le_bits;
use crate::data::_type::Type;

verus! {

/// Total bit width of a field list, in declaration order.
pub open spec fn sum_size_in_bits(fields: Seq<(String, Type)>) -> int
    decreases fields.len(),
{
    if fields.len() == 0 {
        0
    } else {
        sum_size_in_bits(fields.drop_last()) + fields.last().1.spec_size_in_bits()
    }
}

/// Total byte width of a record laid out after a field list, in declaration
/// order.  This is the stride between two consecutive records of a page.
pub open spec fn sum_size_in_bytes(fields: Seq<(String, Type)>) -> int
    decreases fields.len(),
{
    if fields.len() == 0 {
        0
    } else {
        sum_size_in_bytes(fields.drop_last()) + fields.last().1.spec_size_in_bytes()
    }
}

pub proof fn lemma_sum_nonneg(fields: Seq<(String, Type)>)
    ensures
        0 <= sum_size_in_bytes(fields) <= sum_size_in_bits(fields),
    decreases fields.len(),
{
    if fields.len() > 0 {
        lemma_sum_nonneg(fields.drop_last());
        lemma_bytes_le_bits(fields.last().1);
    }
}

/// A schema: a named, ordered, append-only list of typed fields, with its
/// total bit width and record byte width kept alongside the list.
pub struct Object<'a> {
    name: &'a str,
    fields: Vec<(String, Type)>,
    size_in_bits: u64,
    size_in_bytes: u64,
}

impl<'a> Object<'a> {
    /// The ordered field list, as contracts speak of it.
    pub closed spec fn spec_fields(&self) -> Seq<(String, Type)> {
        self.fields@
    }

    pub closed spec fn spec_name(&self) -> Seq<char> {
        self.name@
    }

    pub closed spec fn spec_size_in_bits(&self) -> u64 {
        self.size_in_bits
    }

    pub closed spec fn spec_size_in_bytes(&self) -> u64 {
        self.size_in_bytes
    }

    /// The running totals always equal the sums over the field list.
    pub open spec fn wf(&self) -> bool {
        &&& self.spec_size_in_bits() == sum_size_in_bits(self.spec_fields())
        &&& self.spec_size_in_bytes() == sum_size_in_bytes(self.spec_fields())
    }

    pub fn fields(&self) -> (r: &Vec<(String, Type)>)
        ensures
            r@ == self.spec_fields(),
    {
        &self.fields
    }

    pub fn size_in_bits(&self) -> (r: &u64)
        ensures
            *r == self.spec_size_in_bits(),
    {
        &self.size_in_bits
    }

    /// The byte width of one record: the stride used for record offsets.
    pub fn size_in_bytes(&self) -> (r: &u64)
        ensures
            *r == self.spec_size_in_bytes(),
    {
        &self.size_in_bytes
    }

    pub fn new(name: &'a str) -> (r: Self)
        ensures
            r.spec_name() == name@,
            r.spec_fields() == Seq::<(String, Type)>::empty(),
            r.spec_size_in_bits() == 0,
            r.spec_size_in_bytes() == 0,
            r.wf(),
    {
        Self { name, fields: Vec::new(), size_in_bits: 0, size_in_bytes: 0 }
    }

    /// Appends a field and grows the running widths by the field's own.
    pub fn add_field(&mut self, name: String, _type: Type)
        requires
            old(self).wf(),
            old(self).spec_size_in_bits() + _type.spec_size_in_bits() <= u64::MAX,
        ensures
            final(self).wf(),
            final(self).spec_name() == old(self).spec_name(),
            final(self).spec_fields() == old(self).spec_fields().push((name, _type)),
            final(self).spec_size_in_bits() == old(self).spec_size_in_bits()
                + _type.spec_size_in_bits(),
            final(self).spec_size_in_bytes() == old(self).spec_size_in_bytes()
                + _type.spec_size_in_bytes(),
    {
        proof {
            lemma_sum_nonneg(self.fields@);
            lemma_bytes_le_bits(_type);
        }
        let field_size = _type.size_in_bits();
        let field_bytes = _type.size_in_bytes();

        self.size_in_bits = self.size_in_bits + field_size;
        self.size_in_bytes = self.size_in_bytes + field_bytes;

        self.fields.push((name, _type));

        proof {
            assert(self.fields@.drop_last() =~= old(self).fields@);
        }
    }

    pub fn name(&self) -> (r: &'a str)
        ensures
            r@ == self.spec_name(),
    {
        self.name
    }
}

} // verus!
