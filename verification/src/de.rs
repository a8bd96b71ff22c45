//! The decisions of reading values into typed data: narrowing integers,
//! choosing an enum variant, and walking arrays and tables in order.
use vstd::prelude::*;
use vstd::string::StringExecFns;

use crate::error::{ConfigError, Unexpected};
use crate::text::{copy_string, lowercase, to_lowercase};
use crate::value::{Table, ConfigValue, ValueKind};

verus! {

// ---------------------------------------------------------------------
// Integers
// ---------------------------------------------------------------------
/// The error of an integer that does not fit the requested type.
pub open spec fn is_narrowing_error(e: ConfigError, u: Unexpected, expected: Seq<char>) -> bool {
    e matches ConfigError::Type { origin, unexpected, expected: x, key } && origin is None
        && unexpected == u && x@ == expected && key is None
}

/// An `i64` as an `i8`, or the error that it does not fit.
pub fn to_i8(num: i64) -> (r: Result<i8, ConfigError>)
    ensures
        i8::MIN <= num <= i8::MAX ==> r == Ok::<i8, ConfigError>(num as i8),
        !(i8::MIN <= num <= i8::MAX) ==> (r matches Err(e) && is_narrowing_error(
            e,
            Unexpected::I64(num),
            "an signed 8 bit integer"@,
        )),
{
    if i8::MIN as i64 <= num && num <= i8::MAX as i64 {
        Ok(num as i8)
    } else {
        Err(ConfigError::invalid_type(None, Unexpected::I64(num), "an signed 8 bit integer"))
    }
}

/// An `i64` as an `i16`, or the error that it does not fit.
pub fn to_i16(num: i64) -> (r: Result<i16, ConfigError>)
    ensures
        i16::MIN <= num <= i16::MAX ==> r == Ok::<i16, ConfigError>(num as i16),
        !(i16::MIN <= num <= i16::MAX) ==> (r matches Err(e) && is_narrowing_error(
            e,
            Unexpected::I64(num),
            "an signed 16 bit integer"@,
        )),
{
    if i16::MIN as i64 <= num && num <= i16::MAX as i64 {
        Ok(num as i16)
    } else {
        Err(ConfigError::invalid_type(None, Unexpected::I64(num), "an signed 16 bit integer"))
    }
}

/// An `i64` as an `i32`, or the error that it does not fit.
pub fn to_i32(num: i64) -> (r: Result<i32, ConfigError>)
    ensures
        i32::MIN <= num <= i32::MAX ==> r == Ok::<i32, ConfigError>(num as i32),
        !(i32::MIN <= num <= i32::MAX) ==> (r matches Err(e) && is_narrowing_error(
            e,
            Unexpected::I64(num),
            "an signed 32 bit integer"@,
        )),
{
    if i32::MIN as i64 <= num && num <= i32::MAX as i64 {
        Ok(num as i32)
    } else {
        Err(ConfigError::invalid_type(None, Unexpected::I64(num), "an signed 32 bit integer"))
    }
}

/// A `u64` as a `u8`, or the error that it does not fit.
pub fn to_u8(num: u64) -> (r: Result<u8, ConfigError>)
    ensures
        num <= u8::MAX ==> r == Ok::<u8, ConfigError>(num as u8),
        num > u8::MAX ==> (r matches Err(e) && is_narrowing_error(
            e,
            Unexpected::U64(num),
            "an unsigned 8 bit integer"@,
        )),
{
    if num <= u8::MAX as u64 {
        Ok(num as u8)
    } else {
        Err(ConfigError::invalid_type(None, Unexpected::U64(num), "an unsigned 8 bit integer"))
    }
}

/// A `u64` as a `u16`, or the error that it does not fit.
pub fn to_u16(num: u64) -> (r: Result<u16, ConfigError>)
    ensures
        num <= u16::MAX ==> r == Ok::<u16, ConfigError>(num as u16),
        num > u16::MAX ==> (r matches Err(e) && is_narrowing_error(
            e,
            Unexpected::U64(num),
            "an unsigned 16 bit integer"@,
        )),
{
    if num <= u16::MAX as u64 {
        Ok(num as u16)
    } else {
        Err(ConfigError::invalid_type(None, Unexpected::U64(num), "an unsigned 16 bit integer"))
    }
}

/// A `u64` as a `u32`, or the error that it does not fit.
pub fn to_u32(num: u64) -> (r: Result<u32, ConfigError>)
    ensures
        num <= u32::MAX ==> r == Ok::<u32, ConfigError>(num as u32),
        num > u32::MAX ==> (r matches Err(e) && is_narrowing_error(
            e,
            Unexpected::U64(num),
            "an unsigned 32 bit integer"@,
        )),
{
    if num <= u32::MAX as u64 {
        Ok(num as u32)
    } else {
        Err(ConfigError::invalid_type(None, Unexpected::U64(num), "an unsigned 32 bit integer"))
    }
}

// ---------------------------------------------------------------------
// Enums
// ---------------------------------------------------------------------
/// A variant name handed to the visitor of an enum.
#[derive(Debug, Clone, PartialEq)]
pub struct StrDeserializer(pub String);

/// Reads an enum from a value: a string names the variant, a table with
/// exactly one key names it by that key.
pub struct EnumAccess {
    value: ConfigValue,
    name: String,
    variants: Vec<String>,
}

/// Position of the first variant that equals `name` once both are
/// lowercased, or -1.
pub open spec fn first_variant(vs: Seq<Seq<char>>, name: Seq<char>) -> int
    decreases vs.len(),
{
    if vs.len() == 0 {
        -1
    } else if lowercase(vs[0]) == lowercase(name) {
        0
    } else {
        let r = first_variant(vs.drop_first(), name);
        if r < 0 {
            -1
        } else {
            r + 1
        }
    }
}

proof fn lemma_first_variant_at(vs: Seq<Seq<char>>, name: Seq<char>, i: int)
    requires
        -1 <= i < vs.len(),
        i >= 0 ==> lowercase(vs[i]) == lowercase(name),
        forall|j: int| 0 <= j < vs.len() && (i < 0 || j < i) ==> lowercase(vs[j]) != lowercase(
            name,
        ),
    ensures
        first_variant(vs, name) == i,
    decreases vs.len(),
{
    if vs.len() > 0 && i != 0 {
        assert forall|j: int|
            0 <= j < vs.len() - 1 && (i - 1 < 0 || j < i - 1) implies lowercase(
            vs.drop_first()[j],
        ) != lowercase(name) by {
            assert(vs.drop_first()[j] == vs[j + 1]);
        }
        lemma_first_variant_at(vs.drop_first(), name, if i < 0 {
            -1
        } else {
            i - 1
        });
    }
}

/// Law: names that differ only in case name the same variant, so a
/// value written in lowercase reads as the variant it names.
pub proof fn law_variant_ignores_case(vs: Seq<Seq<char>>, a: Seq<char>, b: Seq<char>)
    requires
        lowercase(a) == lowercase(b),
    ensures
        first_variant(vs, a) == first_variant(vs, b),
    decreases vs.len(),
{
    if vs.len() > 0 {
        law_variant_ignores_case(vs.drop_first(), a, b);
    }
}

/// The message that an enum has no such variant.
pub open spec fn no_constructor_text(name: Seq<char>, supposed: Seq<char>) -> Seq<char> {
    "enum "@ + name + " does not have variant constructor "@ + supposed
}

/// The message that an enum is not written as a string or a one-key table.
pub open spec fn structural_text(name: Seq<char>) -> Seq<char> {
    "value of enum "@ + name
        + " should be represented by either string or table with exactly one key"@
}

impl EnumAccess {
    pub closed spec fn value_spec(&self) -> ConfigValue {
        self.value
    }

    pub closed spec fn name_spec(&self) -> Seq<char> {
        self.name@
    }

    pub closed spec fn variants_spec(&self) -> Seq<Seq<char>> {
        self.variants@.map_values(|s: String| s@)
    }

    /// Reads enum `name`, with the given variants, from `value`.
    pub fn new(value: ConfigValue, name: &str, variants: Vec<String>) -> (r: Self)
        ensures
            r.value_spec() == value,
            r.name_spec() == name@,
            r.variants_spec() == variants@.map_values(|s: String| s@),
    {
        EnumAccess { value, name: copy_string(name), variants }
    }

    /// What reading the variant named `supposed` gives: the first variant
    /// equal to it once both are lowercased, or the error that there is none.
    pub open spec fn named_outcome(&self, supposed: Seq<char>, r: Result<StrDeserializer, ConfigError>) -> bool {
        let i = first_variant(self.variants_spec(), supposed);
        if i >= 0 {
            r matches Ok(d) && d.0@ == self.variants_spec()[i]
        } else {
            r matches Err(ConfigError::Message(m)) && m@ == no_constructor_text(
                self.name_spec(),
                supposed,
            )
        }
    }

    /// The first variant whose name equals `name` when both are
    /// lowercased; an error when there is none.
    pub fn variant_deserializer(&self, name: &str) -> (r: Result<StrDeserializer, ConfigError>)
        ensures
            self.named_outcome(name@, r),
    {
        let ghost vs = self.variants_spec();
        let wanted = to_lowercase(name);
        let mut i: usize = 0;
        while i < self.variants.len()
            invariant
                i <= self.variants.len(),
                vs == self.variants_spec(),
                wanted@ == lowercase(name@),
                forall|j: int| 0 <= j < i ==> lowercase(vs[j]) != lowercase(name@),
            decreases self.variants.len() - i,
        {
            let candidate = to_lowercase(self.variants[i].as_str());
            if candidate == wanted {
                proof {
                    lemma_first_variant_at(vs, name@, i as int);
                }
                return Ok(StrDeserializer(copy_string(self.variants[i].as_str())));
            }
            i = i + 1;
        }
        proof {
            lemma_first_variant_at(vs, name@, -1);
        }
        Err(self.no_constructor_error(name))
    }

    /// The variant named by the only key of `table`; an error when the table
    /// does not have exactly one key.
    pub fn table_deserializer(&self, table: &Table<ConfigValue>) -> (r: Result<
        StrDeserializer,
        ConfigError,
    >)
        ensures
            table@.len() == 1 ==> self.named_outcome(table@[0].0, r),
            table@.len() != 1 ==> (r matches Err(ConfigError::Message(m)) && m@ == structural_text(
                self.name_spec(),
            )),
    {
        if table.len() == 1 {
            self.variant_deserializer(table.entries[0].0.as_str())
        } else {
            Err(self.structural_error())
        }
    }

    fn no_constructor_error(&self, supposed_variant: &str) -> (e: ConfigError)
        ensures
            e matches ConfigError::Message(m) && m@ == no_constructor_text(
                self.name_spec(),
                supposed_variant@,
            ),
    {
        let mut m = String::from_str("enum ");
        m.append(self.name.as_str());
        m.append(" does not have variant constructor ");
        m.append(supposed_variant);
        ConfigError::Message(m)
    }

    fn structural_error(&self) -> (e: ConfigError)
        ensures
            e matches ConfigError::Message(m) && m@ == structural_text(self.name_spec()),
    {
        let mut m = String::from_str("value of enum ");
        m.append(self.name.as_str());
        m.append(" should be represented by either string or table with exactly one key");
        ConfigError::Message(m)
    }

    /// The variant the value names: by a string, or by the only key of a
    /// table; any other value is a structural error.
    pub fn variant(&self) -> (r: Result<StrDeserializer, ConfigError>)
        ensures
            match self.value_spec().kind {
                ValueKind::String(s) => self.named_outcome(s@, r),
                ValueKind::Table(t) => if t@.len() == 1 {
                    self.named_outcome(t@[0].0, r)
                } else {
                    r matches Err(ConfigError::Message(m)) && m@ == structural_text(self.name_spec())
                },
                _ => r matches Err(ConfigError::Message(m)) && m@ == structural_text(
                    self.name_spec(),
                ),
            },
    {
        match &self.value.kind {
            ValueKind::String(s) => self.variant_deserializer(s.as_str()),
            ValueKind::Table(t) => self.table_deserializer(t),
            _ => Err(self.structural_error()),
        }
    }
}

// ---------------------------------------------------------------------
// Sequences and tables
// ---------------------------------------------------------------------
/// Hands out the elements of an array in order, with their indices.
pub struct SeqAccess {
    elements: Vec<ConfigValue>,
    next: usize,
    original: Ghost<Seq<ConfigValue>>,
}

impl SeqAccess {
    /// What is left to hand out.
    pub closed spec fn remaining(&self) -> Seq<ConfigValue> {
        self.elements@
    }

    /// How many elements were handed out.
    pub closed spec fn index(&self) -> nat {
        self.next as nat
    }

    /// The sequence the access was made from.
    pub closed spec fn original(&self) -> Seq<ConfigValue> {
        self.original@
    }

    /// What is left is the original past the elements handed out.
    pub closed spec fn wf(&self) -> bool {
        &&& self.original@.len() <= usize::MAX
        &&& self.next <= self.original@.len()
        &&& self.elements@ == self.original@.skip(self.next as int)
    }

    pub fn new(elements: Vec<ConfigValue>) -> (s: Self)
        ensures
            s.wf(),
            s.original() == elements@,
            s.remaining() == elements@,
            s.index() == 0,
    {
        let ghost original = elements@;
        let count: usize = elements.len();
        assert(original.len() == count);
        let s = SeqAccess { elements, next: 0, original: Ghost(original) };
        assert(s.elements@ =~= s.original@.skip(0));
        s
    }

    /// The number of elements left: the original's length less the
    /// elements handed out.
    pub fn size_hint(&self) -> (n: Option<usize>)
        requires
            self.wf(),
        ensures
            n == Some(self.remaining().len() as usize),
            n == Some((self.original().len() - self.index()) as usize),
    {
        Some(self.elements.len())
    }

    /// The next element, with its index; `None` when none is left.  Each
    /// call hands out the original's element at the index it reports, the
    /// indices counting up from zero.
    pub fn next_element(&mut self) -> (r: Option<(usize, ConfigValue)>)
        requires
            old(self).wf(),
        ensures
            final(self).wf(),
            final(self).original() == old(self).original(),
            old(self).remaining().len() == 0 ==> r is None && *final(self) == *old(self),
            old(self).remaining().len() > 0 ==> (r matches Some((i, v)) && i == old(self).index()
                && v == old(self).remaining()[0] && v == old(self).original()[i as int]
                && final(self).remaining() == old(self).remaining().drop_first()
                && final(self).index() == old(self).index() + 1),
    {
        if self.elements.len() > 0 {
            let i = self.next;
            self.next = self.next + 1;
            let v = self.elements.remove(0);
            proof {
                assert(self.elements@ =~= old(self).remaining().drop_first());
                assert(self.elements@ =~= self.original@.skip(self.next as int));
            }
            Some((i, v))
        } else {
            None
        }
    }
}

/// A sequence access hands out its original in order: what is left is
/// the original past the elements handed out, so the next element is the
/// original's element at the current index, and the count left is the
/// length less that index.
pub proof fn law_seq_access_in_order(s: SeqAccess)
    requires
        s.wf(),
    ensures
        s.index() <= s.original().len(),
        s.remaining() == s.original().skip(s.index() as int),
        s.remaining().len() == s.original().len() - s.index(),
        s.remaining().len() > 0 ==> s.remaining()[0] == s.original()[s.index() as int],
{
}

/// Hands out the entries of a table in order: the key first, then the
/// value.
pub struct MapAccess {
    elements: Vec<(String, ConfigValue)>,
}

impl MapAccess {
    pub closed spec fn remaining(&self) -> Seq<(Seq<char>, ConfigValue)> {
        self.elements@.map_values(|e: (String, ConfigValue)| (e.0@, e.1))
    }

    pub fn new(table: Table<ConfigValue>) -> (m: Self)
        ensures
            m.remaining() == table@,
    {
        let m = MapAccess { elements: table.entries };
        assert(m.remaining() =~= table@);
        m
    }

    /// The key of the next entry; `None` when none is left.
    pub fn next_key(&self) -> (r: Option<&String>)
        ensures
            self.remaining().len() == 0 ==> r is None,
            self.remaining().len() > 0 ==> (r matches Some(k) && k@ == self.remaining()[0].0),
    {
        if self.elements.len() > 0 {
            Some(&self.elements[0].0)
        } else {
            None
        }
    }

    /// The next entry, which is then done.
    pub fn next_value(&mut self) -> (r: (String, ConfigValue))
        requires
            old(self).remaining().len() > 0,
        ensures
            r.0@ == old(self).remaining()[0].0,
            r.1 == old(self).remaining()[0].1,
            final(self).remaining() == old(self).remaining().drop_first(),
    {
        let e = self.elements.remove(0);
        proof {
            assert(self.remaining() =~= old(self).remaining().drop_first());
        }
        e
    }
}

/// Hands out the entries of a table as key and value calls: the key of
/// the first entry left, then that entry's value, which removes it.
pub struct MapVisitor {
    elements: Vec<(String, ConfigValue)>,
    index: usize,
}

impl MapVisitor {
    pub closed spec fn remaining(&self) -> Seq<(Seq<char>, ConfigValue)> {
        self.elements@.map_values(|e: (String, ConfigValue)| (e.0@, e.1))
    }

    /// The position the visitor was created at; no call moves it.
    pub closed spec fn index(&self) -> nat {
        self.index as nat
    }

    pub fn new(table: Table<ConfigValue>) -> (m: Self)
        ensures
            m.remaining() == table@,
            m.index() == 0,
    {
        let m = MapVisitor { elements: table.entries, index: 0 };
        assert(m.remaining() =~= table@);
        m
    }

    /// The key of the first entry left; `None` when none is left.
    pub fn visit_key(&self) -> (r: Option<&String>)
        ensures
            self.index() >= self.remaining().len() ==> r is None,
            self.index() < self.remaining().len() ==> (r matches Some(k) && k@
                == self.remaining()[0].0),
    {
        if self.index >= self.elements.len() {
            return None;
        }
        Some(&self.elements[0].0)
    }

    /// The value of the first entry left, which is then removed.
    pub fn visit_value(&mut self) -> (r: ConfigValue)
        requires
            old(self).remaining().len() > 0,
        ensures
            r == old(self).remaining()[0].1,
            final(self).remaining() == old(self).remaining().drop_first(),
            final(self).index() == old(self).index(),
    {
        let e = self.elements.remove(0);
        proof {
            assert(self.remaining() =~= old(self).remaining().drop_first());
        }
        e.1
    }
}

} // verus!
