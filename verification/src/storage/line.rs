use vstd::prelude::*;

use vstd::string::StringExecFns;

use crate::storage::value::Value;

verus! {

/// The displayable form of a record's entries, comma-space separated:
/// `name: value, name: value` with no trailing separator.
pub open spec fn spec_render_entries(entries: Seq<(String, Value)>, i: int) -> Seq<char>
    decreases entries.len() - i,
{
    if i < 0 || i >= entries.len() {
        Seq::empty()
    } else {
        let entry = entries[i].0@ + ": "@ + entries[i].1.spec_render();
        if i + 1 == entries.len() {
            entry
        } else {
            entry + ", "@ + spec_render_entries(entries, i + 1)
        }
    }
}

/// The displayable form of a whole record: the entries between braces.
pub open spec fn spec_render_line(entries: Seq<(String, Value)>) -> Seq<char> {
    "{"@ + spec_render_entries(entries, 0) + "}"@
}

/// One in-memory record: an ordered, append-only list of field-name/value
/// pairs, assembled before a write or produced by a read.
pub struct Line {
    fields: Vec<(String, Value)>,
}

impl Line {
    /// The ordered entry list, as contracts speak of it.
    pub closed spec fn spec_fields(&self) -> Seq<(String, Value)> {
        self.fields@
    }

    pub fn fields(&self) -> (r: &Vec<(String, Value)>)
        ensures
            r@ == self.spec_fields(),
    {
        &self.fields
    }

    pub fn new() -> (r: Self)
        ensures
            r.spec_fields() == Seq::<(String, Value)>::empty(),
    {
        Self { fields: Vec::new() }
    }

    pub fn add_field(&mut self, name: String, value: Value)
        ensures
            final(self).spec_fields() == old(self).spec_fields().push((name, value)),
    {
        self.fields.push((name, value));
    }

    /// Renders the record as `{name: value, ...}`.  This is a presentation
    /// form only; it is not parseable back into values.
    pub fn to_string(&self) -> (r: String)
        ensures
            r@ == spec_render_line(self.spec_fields()),
    {
        let mut result = String::from_str("{");

        let len = self.fields.len();
        let mut i: usize = 0;
        while i < len
            invariant
                len == self.spec_fields().len(),
                i <= len,
                result@ == "{"@ + spec_render_entries_prefix(self.spec_fields(), i as int),
            decreases len - i,
        {
            let name: &String = &self.fields[i].0;
            let value: &Value = &self.fields[i].1;
            result = result.concat(name.as_str());
            result = result.concat(": ");
            let rendered = value.to_string();
            result = result.concat(rendered.as_str());
            if i + 1 != len {
                result = result.concat(", ");
            }
            proof {
                lemma_render_prefix_step(self.spec_fields(), i as int);
                assert(result@ =~= "{"@ + spec_render_entries_prefix(
                    self.spec_fields(),
                    i as int + 1,
                ));
            }
            i = i + 1;
        }

        let result = result.concat("}");
        proof {
            lemma_render_prefix_whole(self.spec_fields());
            assert(result@ =~= spec_render_line(self.spec_fields()));
        }
        result
    }
}

/// The rendering of the first `i` entries, with a trailing separator when
/// more entries follow.
pub open spec fn spec_render_entries_prefix(entries: Seq<(String, Value)>, i: int) -> Seq<char>
    decreases i,
{
    if i <= 0 || i > entries.len() {
        Seq::empty()
    } else {
        let entry = entries[i - 1].0@ + ": "@ + entries[i - 1].1.spec_render();
        let sep: Seq<char> = if i < entries.len() {
            ", "@
        } else {
            Seq::empty()
        };
        spec_render_entries_prefix(entries, i - 1) + entry + sep
    }
}

proof fn lemma_render_prefix_step(entries: Seq<(String, Value)>, i: int)
    requires
        0 <= i < entries.len(),
    ensures
        spec_render_entries_prefix(entries, i + 1) == spec_render_entries_prefix(entries, i)
            + entries[i].0@ + ": "@ + entries[i].1.spec_render() + (
        if i + 1 < entries.len() {
            ", "@
        } else {
            Seq::<char>::empty()
        }),
{
    assert(spec_render_entries_prefix(entries, i + 1) =~= spec_render_entries_prefix(entries, i)
        + entries[i].0@ + ": "@ + entries[i].1.spec_render() + (
    if i + 1 < entries.len() {
        ", "@
    } else {
        Seq::<char>::empty()
    }));
}

/// The prefix rendering of all entries is the entry rendering itself.
proof fn lemma_render_prefix_from(entries: Seq<(String, Value)>, i: int)
    requires
        0 <= i <= entries.len(),
    ensures
        spec_render_entries_prefix(entries, entries.len() as int) == spec_render_entries_prefix(
            entries,
            i,
        ) + spec_render_entries(entries, i),
    decreases entries.len() - i,
{
    if i == entries.len() {
        assert(spec_render_entries_prefix(entries, entries.len() as int)
            =~= spec_render_entries_prefix(entries, i) + spec_render_entries(entries, i));
    } else {
        lemma_render_prefix_from(entries, i + 1);
        lemma_render_prefix_step(entries, i);
        assert(spec_render_entries_prefix(entries, entries.len() as int)
            =~= spec_render_entries_prefix(entries, i) + spec_render_entries(entries, i));
    }
}

proof fn lemma_render_prefix_whole(entries: Seq<(String, Value)>)
    ensures
        spec_render_entries_prefix(entries, entries.len() as int) == spec_render_entries(
            entries,
            0,
        ),
{
    lemma_render_prefix_from(entries, 0);
    assert(spec_render_entries_prefix(entries, 0) =~= Seq::<char>::empty());
    assert(spec_render_entries_prefix(entries, entries.len() as int) =~= spec_render_entries(
        entries,
        0,
    ));
}

} // verus!
