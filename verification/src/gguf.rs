//! What is read of a GGUF file: metadata and quantised tensors, both by name.

use crate::error::ModelError;
use candle_core::quantized::QTensor;
use std::sync::Arc;
use vstd::prelude::*;
use vstd::string::StringExecFns;

verus! {

/// A metadata value. Floating point numbers stand as their bits.
#[derive(Debug)]
pub enum MetaValue {
    U8(u8),
    I8(i8),
    U16(u16),
    I16(i16),
    U32(u32),
    I32(i32),
    U64(u64),
    I64(i64),
    F32(u32),
    F64(u64),
    Bool(bool),
    String(String),
    Array(Vec<MetaValue>),
}

/// A floating point number by its bits.
#[derive(Clone, Copy, Debug, PartialEq, Eq, Structural)]
pub enum Real {
    /// The bits of a number in single precision.
    Single(u32),
    /// The bits of a number in double precision.
    Double(u64),
}

/// The metadata and the tensors of a file.
pub struct Gguf {
    pub metadata: Vec<(String, MetaValue)>,
    pub tensors: Vec<(String, Arc<QTensor>)>,
}

/// Why a key cannot be read.
pub enum KeyError {
    Missing(Seq<char>),
    WrongType(Seq<char>),
}

/// The first value under a name.
pub open spec fn lookup<T>(entries: Seq<(String, T)>, name: Seq<char>) -> Option<T>
    decreases entries.len(),
{
    if entries.len() == 0 {
        None
    } else if entries[0].0@ == name {
        Some(entries[0].1)
    } else {
        lookup(entries.skip(1), name)
    }
}

/// A number under a key that has to be there.
pub open spec fn u32_at(metadata: Seq<(String, MetaValue)>, key: Seq<char>) -> Result<
    u32,
    KeyError,
> {
    match lookup(metadata, key) {
        None => Err(KeyError::Missing(key)),
        Some(MetaValue::U32(v)) => Ok(v),
        Some(_) => Err(KeyError::WrongType(key)),
    }
}

/// A floating point number under a key, or the one to take where the key is
/// not there.
pub open spec fn real_at(
    metadata: Seq<(String, MetaValue)>,
    key: Seq<char>,
    default: u64,
) -> Result<Real, KeyError> {
    match lookup(metadata, key) {
        None => Ok(Real::Double(default)),
        Some(MetaValue::F32(v)) => Ok(Real::Single(v)),
        Some(_) => Err(KeyError::WrongType(key)),
    }
}

/// A floating point number under a key, if there is one.
pub open spec fn optional_real_at(
    metadata: Seq<(String, MetaValue)>,
    key: Seq<char>,
) -> Option<Real> {
    match lookup(metadata, key) {
        Some(MetaValue::F32(v)) => Some(Real::Single(v)),
        _ => None,
    }
}

/// The numbers among some values.
pub open spec fn numbers_in(values: Seq<MetaValue>) -> Seq<usize>
    decreases values.len(),
{
    if values.len() == 0 {
        Seq::empty()
    } else {
        match values.last() {
            MetaValue::U32(v) => numbers_in(values.drop_last()).push(v as usize),
            _ => numbers_in(values.drop_last()),
        }
    }
}

/// The truth values among some values.
pub open spec fn bools_in(values: Seq<MetaValue>) -> Seq<bool>
    decreases values.len(),
{
    if values.len() == 0 {
        Seq::empty()
    } else {
        match values.last() {
            MetaValue::Bool(v) => bools_in(values.drop_last()).push(v),
            _ => bools_in(values.drop_last()),
        }
    }
}

/// The values of the array under a key; none where there is no array.
pub open spec fn array_at(metadata: Seq<(String, MetaValue)>, key: Seq<char>) -> Seq<MetaValue> {
    match lookup(metadata, key) {
        Some(MetaValue::Array(vs)) => vs@,
        _ => Seq::empty(),
    }
}

/// The reason for which a number cannot be read.
pub open spec fn number_error(md: Seq<(String, MetaValue)>, key: Seq<char>) -> Option<KeyError> {
    match u32_at(md, key) {
        Ok(_) => None,
        Err(k) => Some(k),
    }
}

/// The reason for which a floating point number cannot be read.
pub open spec fn real_error(md: Seq<(String, MetaValue)>, key: Seq<char>) -> Option<KeyError> {
    match real_at(md, key, 0) {
        Ok(_) => None,
        Err(k) => Some(k),
    }
}

/// The first of two reasons.
pub open spec fn first_error(a: Option<KeyError>, b: Option<KeyError>) -> Option<KeyError> {
    match a {
        Some(k) => Some(k),
        None => b,
    }
}

/// The error of the library for a key that cannot be read.
pub open spec fn is_key_error(e: ModelError, k: KeyError) -> bool {
    match (e, k) {
        (ModelError::MissingKey(s), KeyError::Missing(key)) => s@ == key,
        (ModelError::WrongType(s), KeyError::WrongType(key)) => s@ == key,
        _ => false,
    }
}

/// The place of the first value under a name.
fn find<T>(entries: &Vec<(String, T)>, name: &String) -> (r: Option<usize>)
    ensures
        match r {
            Some(i) => i < entries@.len() && lookup(entries@, name@) == Some(entries@[i as int].1),
            None => lookup(entries@, name@) is None,
        },
{
    let mut i: usize = 0;
    assert(entries@.skip(0) =~= entries@);
    while i < entries.len()
        invariant
            i <= entries.len(),
            lookup(entries@, name@) == lookup(entries@.skip(i as int), name@),
        decreases entries.len() - i,
    {
        assert(entries@.skip(i as int)[0] == entries@[i as int]);
        assert(entries@.skip(i as int).skip(1) =~= entries@.skip(i + 1));
        if entries[i].0 == *name {
            return Some(i);
        }
        i = i + 1;
    }
    assert(entries@.skip(entries@.len() as int).len() == 0);
    None
}

impl Gguf {
    /// The quantised tensor under a name.
    pub open spec fn named(&self, name: Seq<char>) -> Option<Arc<QTensor>> {
        lookup(self.tensors@, name)
    }

    /// A number under a key that has to be there.
    pub fn read_u32(&self, key: &str) -> (r: Result<u32, ModelError>)
        ensures
            match u32_at(self.metadata@, key@) {
                Ok(v) => r == Ok::<u32, ModelError>(v),
                Err(k) => r is Err && is_key_error(r->Err_0, k),
            },
    {
        let key = String::from_str(key);
        match find(&self.metadata, &key) {
            None => Err(ModelError::MissingKey(key)),
            Some(i) => match &self.metadata[i].1 {
                MetaValue::U32(v) => Ok(*v),
                _ => Err(ModelError::WrongType(key)),
            },
        }
    }

    /// A floating point number under a key, or `default` where the key is not
    /// there.
    pub fn read_real(&self, key: &str, default: u64) -> (r: Result<Real, ModelError>)
        ensures
            match real_at(self.metadata@, key@, default) {
                Ok(v) => r == Ok::<Real, ModelError>(v),
                Err(k) => r is Err && is_key_error(r->Err_0, k),
            },
    {
        let key = String::from_str(key);
        match find(&self.metadata, &key) {
            None => Ok(Real::Double(default)),
            Some(i) => match &self.metadata[i].1 {
                MetaValue::F32(v) => Ok(Real::Single(*v)),
                _ => Err(ModelError::WrongType(key)),
            },
        }
    }

    /// A floating point number under a key, if there is one.
    pub fn read_optional_real(&self, key: &str) -> (r: Option<Real>)
        ensures
            r == optional_real_at(self.metadata@, key@),
    {
        match find(&self.metadata, &String::from_str(key)) {
            None => None,
            Some(i) => match &self.metadata[i].1 {
                MetaValue::F32(v) => Some(Real::Single(*v)),
                _ => None,
            },
        }
    }

    /// The numbers in the array under a key.
    pub fn read_numbers(&self, key: &str) -> (r: Vec<usize>)
        ensures
            r@ == numbers_in(array_at(self.metadata@, key@)),
    {
        let mut out: Vec<usize> = Vec::new();
        match find(&self.metadata, &String::from_str(key)) {
            None => {},
            Some(at) => match &self.metadata[at].1 {
                MetaValue::Array(vs) => {
                    let mut i: usize = 0;
                    assert(vs@.take(0) =~= Seq::<MetaValue>::empty());
                    while i < vs.len()
                        invariant
                            i <= vs.len(),
                            out@ == numbers_in(vs@.take(i as int)),
                        decreases vs.len() - i,
                    {
                        assert(vs@.take(i + 1).drop_last() =~= vs@.take(i as int));
                        match &vs[i] {
                            MetaValue::U32(v) => out.push(*v as usize),
                            _ => {},
                        }
                        i = i + 1;
                    }
                    assert(vs@.take(vs@.len() as int) =~= vs@);
                },
                _ => {},
            },
        }
        out
    }

    /// The truth values in the array under a key.
    pub fn read_bools(&self, key: &str) -> (r: Vec<bool>)
        ensures
            r@ == bools_in(array_at(self.metadata@, key@)),
    {
        let mut out: Vec<bool> = Vec::new();
        match find(&self.metadata, &String::from_str(key)) {
            None => {},
            Some(at) => match &self.metadata[at].1 {
                MetaValue::Array(vs) => {
                    let mut i: usize = 0;
                    assert(vs@.take(0) =~= Seq::<MetaValue>::empty());
                    while i < vs.len()
                        invariant
                            i <= vs.len(),
                            out@ == bools_in(vs@.take(i as int)),
                        decreases vs.len() - i,
                    {
                        assert(vs@.take(i + 1).drop_last() =~= vs@.take(i as int));
                        match &vs[i] {
                            MetaValue::Bool(v) => out.push(*v),
                            _ => {},
                        }
                        i = i + 1;
                    }
                    assert(vs@.take(vs@.len() as int) =~= vs@);
                },
                _ => {},
            },
        }
        out
    }

    /// The quantised tensor under a name.
    pub fn tensor(&self, name: &String) -> (r: Result<Arc<QTensor>, ModelError>)
        ensures
            match self.named(name@) {
                Some(q) => r == Ok::<Arc<QTensor>, ModelError>(q),
                None => r matches Err(ModelError::MissingTensor(n)) && n@ == name@,
            },
    {
        match find(&self.tensors, name) {
            Some(i) => Ok(Arc::clone(&self.tensors[i].1)),
            None => Err(ModelError::MissingTensor(name.clone())),
        }
    }
}

/// A name stands for the first entry that has it; a name that no entry has stands for
/// nothing.
pub proof fn first_entry_counts<T>(entries: Seq<(String, T)>, name: Seq<char>, i: int)
    requires
        0 <= i <= entries.len(),
        forall|j: int| 0 <= j < i ==> (#[trigger] entries[j]).0@ != name,
    ensures
        i == entries.len() ==> lookup(entries, name) is None,
        i < entries.len() && entries[i].0@ == name ==> lookup(entries, name) == Some(
            entries[i].1,
        ),
    decreases entries.len(),
{
    if entries.len() > 0 {
        let rest = entries.skip(1);
        if i > 0 {
            assert forall|j: int| 0 <= j < i - 1 implies (#[trigger] rest[j]).0@ != name by {
                assert(rest[j] == entries[j + 1]);
            }
            assert(entries[0].0@ != name);
            first_entry_counts(rest, name, i - 1);
        }
    }
}

/// The numbers, and the truth values, of an array come in its order, one part of it
/// behind the other.
pub proof fn arrays_in_order(a: Seq<MetaValue>, b: Seq<MetaValue>)
    ensures
        numbers_in(a + b) == numbers_in(a) + numbers_in(b),
        bools_in(a + b) == bools_in(a) + bools_in(b),
    decreases b.len(),
{
    if b.len() == 0 {
        assert(a + b =~= a);
        assert(numbers_in(a) + numbers_in(b) =~= numbers_in(a));
        assert(bools_in(a) + bools_in(b) =~= bools_in(a));
    } else {
        let c = b.drop_last();
        arrays_in_order(a, c);
        assert((a + b).drop_last() =~= a + c);
        assert((a + b).last() == b.last());
        assert(numbers_in(a + b) =~= numbers_in(a) + numbers_in(b));
        assert(bools_in(a + b) =~= bools_in(a) + bools_in(b));
    }
}

/// An array of one value gives it where it is of the type asked for, and nothing
/// otherwise.
pub proof fn single_values(v: MetaValue)
    ensures
        numbers_in(seq![v]) == match v {
            MetaValue::U32(n) => seq![n as usize],
            _ => Seq::<usize>::empty(),
        },
        bools_in(seq![v]) == match v {
            MetaValue::Bool(t) => seq![t],
            _ => Seq::<bool>::empty(),
        },
{
    reveal_with_fuel(numbers_in, 2);
    reveal_with_fuel(bools_in, 2);
    assert(seq![v].drop_last() =~= Seq::<MetaValue>::empty());
    assert(numbers_in(seq![v]) =~= match v {
        MetaValue::U32(n) => seq![n as usize],
        _ => Seq::<usize>::empty(),
    });
    assert(bools_in(seq![v]) =~= match v {
        MetaValue::Bool(t) => seq![t],
        _ => Seq::<bool>::empty(),
    });
}

/// The number under a key.
pub open spec fn number_under(md: Seq<(String, MetaValue)>, key: Seq<char>, n: int) -> bool {
    match lookup(md, key) {
        Some(MetaValue::U32(v)) => v == n,
        _ => false,
    }
}

/// The floating point number under a key in single precision, or a number of the given
/// bits in double precision where there is no such key.
pub open spec fn real_under(
    md: Seq<(String, MetaValue)>,
    key: Seq<char>,
    bits: u64,
    r: Real,
) -> bool {
    match lookup(md, key) {
        None => r == Real::Double(bits),
        Some(MetaValue::F32(v)) => r == Real::Single(v),
        _ => false,
    }
}

/// There is a number under a key.
pub open spec fn has_number(md: Seq<(String, MetaValue)>, key: Seq<char>) -> bool {
    lookup(md, key) is Some && lookup(md, key)->0 is U32
}

/// There is a number in single precision under a key, or no such key.
pub open spec fn has_real(md: Seq<(String, MetaValue)>, key: Seq<char>) -> bool {
    lookup(md, key) is Some ==> lookup(md, key)->0 is F32
}

/// The reason for which a key cannot be read: it is not there, or it is there with
/// another type.
pub open spec fn unread(md: Seq<(String, MetaValue)>, key: Seq<char>, e: KeyError) -> bool {
    match e {
        KeyError::Missing(k) => k == key && lookup(md, key) is None,
        KeyError::WrongType(k) => k == key && lookup(md, key) is Some,
    }
}

} // verus!
