use vstd::prelude::*;

use crate::error::Error;
use crate::kind::NBTKind;

verus! {

broadcast use vstd::std_specs::vec::axiom_vec_index_decreases;

/// How deep a tag tree may nest before the engines refuse it rather than
/// recurse further.
pub const MAX_DEPTH: u32 = 512;

/// A dynamic tag tree value: one node of the format's typed tree. Floats and
/// doubles are carried as their IEEE-754 bit patterns so that every bit
/// pattern, NaN included, survives a round trip unchanged.
#[derive(Debug, PartialEq)]
pub enum NBTValue {
    Byte(i8),
    Short(i16),
    Int(i32),
    Long(i64),
    Float(u32),
    Double(u64),
    ByteArray(Vec<i8>),
    String(String),
    List(Vec<NBTValue>),
    Compound(Vec<(String, NBTValue)>),
    IntArray(Vec<i32>),
    LongArray(Vec<i64>),
}

/// The mathematical shape of a tag tree value, used by every contract.
pub enum SpecValue {
    Byte(i8),
    Short(i16),
    Int(i32),
    Long(i64),
    Float(u32),
    Double(u64),
    ByteArray(Seq<i8>),
    String(Seq<char>),
    List(Seq<SpecValue>),
    Compound(Seq<(Seq<char>, SpecValue)>),
    IntArray(Seq<i32>),
    LongArray(Seq<i64>),
}

/// The wire kind a value encodes as.
pub open spec fn gkind(g: SpecValue) -> NBTKind {
    match g {
        SpecValue::Byte(_) => NBTKind::Byte,
        SpecValue::Short(_) => NBTKind::Short,
        SpecValue::Int(_) => NBTKind::Int,
        SpecValue::Long(_) => NBTKind::Long,
        SpecValue::Float(_) => NBTKind::Float,
        SpecValue::Double(_) => NBTKind::Double,
        SpecValue::ByteArray(_) => NBTKind::ByteArray,
        SpecValue::String(_) => NBTKind::String,
        SpecValue::List(_) => NBTKind::List,
        SpecValue::Compound(_) => NBTKind::Compound,
        SpecValue::IntArray(_) => NBTKind::IntArray,
        SpecValue::LongArray(_) => NBTKind::LongArray,
    }
}

/// No value is of kind End: End is only ever a terminator on the wire.
pub proof fn lemma_gkind_not_end(g: SpecValue)
    ensures
        gkind(g) != NBTKind::End,
{
}

/// The mathematical value a tree node stands for.
pub open spec fn deep_value(v: NBTValue) -> SpecValue
    decreases v,
{
    match v {
        NBTValue::Byte(n) => SpecValue::Byte(n),
        NBTValue::Short(n) => SpecValue::Short(n),
        NBTValue::Int(n) => SpecValue::Int(n),
        NBTValue::Long(n) => SpecValue::Long(n),
        NBTValue::Float(bits) => SpecValue::Float(bits),
        NBTValue::Double(bits) => SpecValue::Double(bits),
        NBTValue::ByteArray(xs) => SpecValue::ByteArray(xs@),
        NBTValue::String(s) => SpecValue::String(s@),
        NBTValue::List(es) => SpecValue::List(deep_list(es@)),
        NBTValue::Compound(entries) => SpecValue::Compound(deep_entries(entries@)),
        NBTValue::IntArray(xs) => SpecValue::IntArray(xs@),
        NBTValue::LongArray(xs) => SpecValue::LongArray(xs@),
    }
}

pub open spec fn deep_list(s: Seq<NBTValue>) -> Seq<SpecValue>
    decreases s,
{
    if s.len() == 0 {
        Seq::empty()
    } else {
        deep_list(s.drop_last()).push(deep_value(s.last()))
    }
}

pub open spec fn deep_entries(s: Seq<(String, NBTValue)>) -> Seq<(Seq<char>, SpecValue)>
    decreases s,
{
    if s.len() == 0 {
        Seq::empty()
    } else {
        deep_entries(s.drop_last()).push((s.last().0@, deep_value(s.last().1)))
    }
}

pub proof fn lemma_deep_list(s: Seq<NBTValue>)
    ensures
        deep_list(s).len() == s.len(),
        forall|i: int| 0 <= i < s.len() ==> deep_list(s)[i] == deep_value(s[i]),
    decreases s.len(),
{
    if s.len() > 0 {
        lemma_deep_list(s.drop_last());
    }
}

pub proof fn lemma_deep_entries(s: Seq<(String, NBTValue)>)
    ensures
        deep_entries(s).len() == s.len(),
        forall|i: int| 0 <= i < s.len() ==> deep_entries(s)[i] == (s[i].0@, deep_value(s[i].1)),
    decreases s.len(),
{
    if s.len() > 0 {
        lemma_deep_entries(s.drop_last());
    }
}

pub proof fn lemma_deep_list_push(s: Seq<NBTValue>, v: NBTValue)
    ensures
        deep_list(s.push(v)) == deep_list(s).push(deep_value(v)),
{
    assert(s.push(v).drop_last() =~= s);
}

pub proof fn lemma_deep_entries_push(s: Seq<(String, NBTValue)>, name: String, v: NBTValue)
    ensures
        deep_entries(s.push((name, v))) == deep_entries(s).push((name@, deep_value(v))),
{
    assert(s.push((name, v)).drop_last() =~= s);
}

impl View for NBTValue {
    type V = SpecValue;

    open spec fn view(&self) -> SpecValue {
        deep_value(*self)
    }
}

impl NBTValue {
    /// The wire kind this value encodes as.
    pub fn kind(&self) -> (r: NBTKind)
        ensures
            r == gkind(self@),
    {
        match self {
            NBTValue::Byte(_) => NBTKind::Byte,
            NBTValue::Short(_) => NBTKind::Short,
            NBTValue::Int(_) => NBTKind::Int,
            NBTValue::Long(_) => NBTKind::Long,
            NBTValue::Float(_) => NBTKind::Float,
            NBTValue::Double(_) => NBTKind::Double,
            NBTValue::ByteArray(_) => NBTKind::ByteArray,
            NBTValue::String(_) => NBTKind::String,
            NBTValue::List(_) => NBTKind::List,
            NBTValue::Compound(_) => NBTKind::Compound,
            NBTValue::IntArray(_) => NBTKind::IntArray,
            NBTValue::LongArray(_) => NBTKind::LongArray,
        }
    }

    /// Reads this value into a boolean target. The value must be a byte tag
    /// whose payload is exactly 0 or 1; a byte with any other payload fails
    /// with that payload, and any other kind is a tag mismatch.
    pub fn as_bool(&self) -> (r: Result<bool, Error>)
        ensures
            self@ == SpecValue::Byte(0i8) ==> r == Ok::<bool, Error>(false),
            self@ == SpecValue::Byte(1i8) ==> r == Ok::<bool, Error>(true),
            forall|n: i8| self@ == SpecValue::Byte(n) && n != 0 && n != 1 ==> r == Err::<
                bool,
                Error,
            >(Error::ExpectedBooleanByte(n)),
            !(self@ is Byte) ==> r == Err::<bool, Error>(
                Error::MismatchedTag(gkind(self@), NBTKind::Byte),
            ),
    {
        match self {
            NBTValue::Byte(n) => {
                if *n == 0 {
                    Ok(false)
                } else if *n == 1 {
                    Ok(true)
                } else {
                    Err(Error::ExpectedBooleanByte(*n))
                }
            },
            _ => Err(Error::MismatchedTag(self.kind(), NBTKind::Byte)),
        }
    }

    /// Reads this value into a byte target.
    pub fn as_i8(&self) -> (r: Result<i8, Error>)
        ensures
            self@ is Byte ==> r == Ok::<i8, Error>(self@->Byte_0),
            !(self@ is Byte) ==> r == Err::<i8, Error>(
                Error::MismatchedTag(gkind(self@), NBTKind::Byte),
            ),
    {
        match self {
            NBTValue::Byte(n) => Ok(*n),
            _ => Err(Error::MismatchedTag(self.kind(), NBTKind::Byte)),
        }
    }

    /// Reads this value into a 16-bit integer target.
    pub fn as_i16(&self) -> (r: Result<i16, Error>)
        ensures
            self@ is Short ==> r == Ok::<i16, Error>(self@->Short_0),
            !(self@ is Short) ==> r == Err::<i16, Error>(
                Error::MismatchedTag(gkind(self@), NBTKind::Short),
            ),
    {
        match self {
            NBTValue::Short(n) => Ok(*n),
            _ => Err(Error::MismatchedTag(self.kind(), NBTKind::Short)),
        }
    }

    /// Reads this value into a 32-bit integer target.
    pub fn as_i32(&self) -> (r: Result<i32, Error>)
        ensures
            self@ is Int ==> r == Ok::<i32, Error>(self@->Int_0),
            !(self@ is Int) ==> r == Err::<i32, Error>(
                Error::MismatchedTag(gkind(self@), NBTKind::Int),
            ),
    {
        match self {
            NBTValue::Int(n) => Ok(*n),
            _ => Err(Error::MismatchedTag(self.kind(), NBTKind::Int)),
        }
    }

    /// Reads this value into a 64-bit integer target.
    pub fn as_i64(&self) -> (r: Result<i64, Error>)
        ensures
            self@ is Long ==> r == Ok::<i64, Error>(self@->Long_0),
            !(self@ is Long) ==> r == Err::<i64, Error>(
                Error::MismatchedTag(gkind(self@), NBTKind::Long),
            ),
    {
        match self {
            NBTValue::Long(n) => Ok(*n),
            _ => Err(Error::MismatchedTag(self.kind(), NBTKind::Long)),
        }
    }

    /// Reads this value into a single-precision float target, as the
    /// payload's untouched bit pattern.
    pub fn as_f32_bits(&self) -> (r: Result<u32, Error>)
        ensures
            self@ is Float ==> r == Ok::<u32, Error>(self@->Float_0),
            !(self@ is Float) ==> r == Err::<u32, Error>(
                Error::MismatchedTag(gkind(self@), NBTKind::Float),
            ),
    {
        match self {
            NBTValue::Float(bits) => Ok(*bits),
            _ => Err(Error::MismatchedTag(self.kind(), NBTKind::Float)),
        }
    }

    /// Reads this value into a double-precision float target, as the
    /// payload's untouched bit pattern.
    pub fn as_f64_bits(&self) -> (r: Result<u64, Error>)
        ensures
            self@ is Double ==> r == Ok::<u64, Error>(self@->Double_0),
            !(self@ is Double) ==> r == Err::<u64, Error>(
                Error::MismatchedTag(gkind(self@), NBTKind::Double),
            ),
    {
        match self {
            NBTValue::Double(bits) => Ok(*bits),
            _ => Err(Error::MismatchedTag(self.kind(), NBTKind::Double)),
        }
    }

    /// Reads this value into a string target.
    pub fn as_string(&self) -> (r: Result<&String, Error>)
        ensures
            self@ is String ==> r is Ok && r->Ok_0@ == self@->String_0,
            !(self@ is String) ==> r == Err::<&String, Error>(
                Error::MismatchedTag(gkind(self@), NBTKind::String),
            ),
    {
        match self {
            NBTValue::String(s) => Ok(s),
            _ => Err(Error::MismatchedTag(self.kind(), NBTKind::String)),
        }
    }

    /// Reads this value into a byte array target; a list of byte tags does
    /// not satisfy it, the two differ on the wire.
    pub fn as_byte_array(&self) -> (r: Result<&Vec<i8>, Error>)
        ensures
            self@ is ByteArray ==> r is Ok && r->Ok_0@ == self@->ByteArray_0,
            !(self@ is ByteArray) ==> r == Err::<&Vec<i8>, Error>(
                Error::MismatchedTag(gkind(self@), NBTKind::ByteArray),
            ),
    {
        match self {
            NBTValue::ByteArray(xs) => Ok(xs),
            _ => Err(Error::MismatchedTag(self.kind(), NBTKind::ByteArray)),
        }
    }

    /// Reads this value into an integer array target.
    pub fn as_int_array(&self) -> (r: Result<&Vec<i32>, Error>)
        ensures
            self@ is IntArray ==> r is Ok && r->Ok_0@ == self@->IntArray_0,
            !(self@ is IntArray) ==> r == Err::<&Vec<i32>, Error>(
                Error::MismatchedTag(gkind(self@), NBTKind::IntArray),
            ),
    {
        match self {
            NBTValue::IntArray(xs) => Ok(xs),
            _ => Err(Error::MismatchedTag(self.kind(), NBTKind::IntArray)),
        }
    }

    /// Reads this value into a long array target.
    pub fn as_long_array(&self) -> (r: Result<&Vec<i64>, Error>)
        ensures
            self@ is LongArray ==> r is Ok && r->Ok_0@ == self@->LongArray_0,
            !(self@ is LongArray) ==> r == Err::<&Vec<i64>, Error>(
                Error::MismatchedTag(gkind(self@), NBTKind::LongArray),
            ),
    {
        match self {
            NBTValue::LongArray(xs) => Ok(xs),
            _ => Err(Error::MismatchedTag(self.kind(), NBTKind::LongArray)),
        }
    }

    /// Reads this value into a record or map target.
    pub fn as_compound(&self) -> (r: Result<&Vec<(String, NBTValue)>, Error>)
        ensures
            self@ is Compound ==> r is Ok && deep_entries(r->Ok_0@) == self@->Compound_0,
            !(self@ is Compound) ==> r == Err::<&Vec<(String, NBTValue)>, Error>(
                Error::MismatchedTag(gkind(self@), NBTKind::Compound),
            ),
    {
        match self {
            NBTValue::Compound(entries) => Ok(entries),
            _ => Err(Error::MismatchedTag(self.kind(), NBTKind::Compound)),
        }
    }

    /// Looks a compound entry up by name, reading the compound as the
    /// unordered name-to-value map it stands for: when a name repeats, the
    /// last entry under it wins, as re-inserting into a map would.
    #[verifier::loop_isolation(false)]
    pub fn get(&self, name: &String) -> (r: Result<Option<&NBTValue>, Error>)
        ensures
            self@ is Compound ==> r is Ok && ({
                let m = crate::wire::entries_map(self@->Compound_0);
                &&& (r->Ok_0 is Some <==> m.contains_key(name@))
                &&& (r->Ok_0 matches Some(v) ==> m[name@] == v@)
            }),
            !(self@ is Compound) ==> r == Err::<Option<&NBTValue>, Error>(
                Error::MismatchedTag(gkind(self@), NBTKind::Compound),
            ),
    {
        let entries = match self {
            NBTValue::Compound(entries) => entries,
            _ => {
                return Err(Error::MismatchedTag(self.kind(), NBTKind::Compound));
            },
        };
        let ghost gentries = deep_entries(entries@);
        proof {
            lemma_deep_entries(entries@);
        }
        let n = entries.len();
        let mut best: Option<usize> = None;
        let mut i: usize = 0;
        while i < n
            invariant
                n == entries@.len(),
                0 <= i <= n,
                ({
                    let m = crate::wire::entries_map(gentries.subrange(0, i as int));
                    match best {
                        None => !m.contains_key(name@),
                        Some(j) => j < i && entries@[j as int].0@ == name@ && m.contains_key(
                            name@,
                        ) && m[name@] == deep_value(entries@[j as int].1),
                    }
                }),
            decreases n - i,
        {
            let ghost sub = gentries.subrange(0, i as int);
            if entries[i].0 == *name {
                best = Some(i);
            }
            i = i + 1;
            proof {
                assert(gentries.subrange(0, i as int) =~= sub.push(gentries[i - 1]));
                crate::wire::lemma_entries_map_push(sub, gentries[i - 1].0, gentries[i - 1].1);
            }
        }
        proof {
            assert(gentries.subrange(0, n as int) =~= gentries);
        }
        match best {
            Some(j) => Ok(Some(&entries[j].1)),
            None => Ok(None),
        }
    }

    /// Reads this value into a sequence target. Only a list satisfies it;
    /// in particular the three array kinds are not list-compatible.
    pub fn as_list(&self) -> (r: Result<&Vec<NBTValue>, Error>)
        ensures
            self@ is List ==> r is Ok && deep_list(r->Ok_0@) == self@->List_0,
            !(self@ is List) ==> r == Err::<&Vec<NBTValue>, Error>(
                Error::MismatchedTag(gkind(self@), NBTKind::List),
            ),
    {
        match self {
            NBTValue::List(es) => Ok(es),
            _ => Err(Error::MismatchedTag(self.kind(), NBTKind::List)),
        }
    }
}

/// Marks a sequence of bytes for encoding as a byte array tag rather than a
/// list of byte tags: the two share an element type but differ on the wire.
pub fn byte_array(xs: Vec<i8>) -> (r: NBTValue)
    ensures
        r@ == SpecValue::ByteArray(xs@),
{
    NBTValue::ByteArray(xs)
}

/// Marks a sequence of 32-bit integers for encoding as an integer array tag
/// rather than a list of integer tags.
pub fn int_array(xs: Vec<i32>) -> (r: NBTValue)
    ensures
        r@ == SpecValue::IntArray(xs@),
{
    NBTValue::IntArray(xs)
}

/// Marks a sequence of 64-bit integers for encoding as a long array tag
/// rather than a list of long tags.
pub fn long_array(xs: Vec<i64>) -> (r: NBTValue)
    ensures
        r@ == SpecValue::LongArray(xs@),
{
    NBTValue::LongArray(xs)
}

} // verus!
