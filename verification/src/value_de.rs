//! Decoding out of an in-memory [`Value`] tree.
//!
//! [`ValueDecoder`] offers the same decode surface as the wire decoder but
//! reads from a `Value`; sub-decoders borrow into the tree.  Each method
//! succeeds exactly when the value has the requested shape, and otherwise
//! reports the shape it found.

use vstd::prelude::*;

use crate::error::CodecError;
use crate::hint::NumberHint;
use crate::hint::TypeHint;
use crate::value::Number;
use crate::value::Value;

verus! {

/// A decoder positioned on a single value.
pub struct ValueDecoder<'a> {
    /// The value being decoded.
    pub value: &'a Value,
}

impl<'a> ValueDecoder<'a> {
    /// A decoder for the given value.
    pub fn new(value: &'a Value) -> (r: ValueDecoder<'a>)
        ensures
            r.value == value,
    {
        ValueDecoder { value }
    }

    /// The shape of the value under the decoder.
    pub fn type_hint(&self) -> (r: TypeHint)
        ensures
            r == self.value.spec_type_hint(),
    {
        self.value.type_hint()
    }

    /// Buffer the value for repeated decoding: the tree already sits in
    /// memory, so the decoder serves as its own buffer.
    pub fn decode_buffer(&self) -> (r: Result<ValueDecoder<'a>, CodecError>)
        ensures
            r matches Ok(d) && d.value == self.value,
    {
        Ok(ValueDecoder { value: self.value })
    }

    /// A fresh decoder for the same value.
    pub fn as_decoder(&self) -> (r: ValueDecoder<'a>)
        ensures
            r.value == self.value,
    {
        ValueDecoder { value: self.value }
    }

    /// Decode a unit: succeeds exactly on `Value::Unit`.
    pub fn decode_unit(&self) -> (r: Result<(), CodecError>)
        ensures
            *self.value is Unit ==> r is Ok,
            !(*self.value is Unit) ==> r == Err::<(), CodecError>(
                CodecError::ExpectedUnit(self.value.spec_type_hint()),
            ),
    {
        match self.value {
            Value::Unit => Ok(()),
            _ => Err(CodecError::ExpectedUnit(self.value.type_hint())),
        }
    }

    /// Decode a boolean: succeeds exactly on `Value::Bool`.
    pub fn decode_bool(&self) -> (r: Result<bool, CodecError>)
        ensures
            match *self.value {
                Value::Bool(b) => r == Ok::<bool, CodecError>(b),
                _ => r == Err::<bool, CodecError>(
                    CodecError::ExpectedBool(self.value.spec_type_hint()),
                ),
            },
    {
        match self.value {
            Value::Bool(b) => Ok(*b),
            _ => Err(CodecError::ExpectedBool(self.value.type_hint())),
        }
    }

    /// Decode a character: succeeds exactly on `Value::Char`.
    pub fn decode_char(&self) -> (r: Result<char, CodecError>)
        ensures
            match *self.value {
                Value::Char(c) => r == Ok::<char, CodecError>(c),
                _ => r == Err::<char, CodecError>(
                    CodecError::ExpectedChar(self.value.spec_type_hint()),
                ),
            },
    {
        match self.value {
            Value::Char(c) => Ok(*c),
            _ => Err(CodecError::ExpectedChar(self.value.type_hint())),
        }
    }

    /// Decode a `u8`: succeeds exactly on a number of that width.
    pub fn decode_u8(&self) -> (r: Result<u8, CodecError>)
        ensures
            match *self.value {
                Value::Number(Number::U8(n)) => r == Ok::<u8, CodecError>(n),
                _ => r == Err::<u8, CodecError>(
                    CodecError::ExpectedNumber(NumberHint::U8, self.value.spec_type_hint()),
                ),
            },
    {
        match self.value {
            Value::Number(Number::U8(n)) => Ok(*n),
            _ => Err(CodecError::ExpectedNumber(NumberHint::U8, self.value.type_hint())),
        }
    }

    /// Decode a `u16`: succeeds exactly on a number of that width.
    pub fn decode_u16(&self) -> (r: Result<u16, CodecError>)
        ensures
            match *self.value {
                Value::Number(Number::U16(n)) => r == Ok::<u16, CodecError>(n),
                _ => r == Err::<u16, CodecError>(
                    CodecError::ExpectedNumber(NumberHint::U16, self.value.spec_type_hint()),
                ),
            },
    {
        match self.value {
            Value::Number(Number::U16(n)) => Ok(*n),
            _ => Err(CodecError::ExpectedNumber(NumberHint::U16, self.value.type_hint())),
        }
    }

    /// Decode a `u32`: succeeds exactly on a number of that width.
    pub fn decode_u32(&self) -> (r: Result<u32, CodecError>)
        ensures
            match *self.value {
                Value::Number(Number::U32(n)) => r == Ok::<u32, CodecError>(n),
                _ => r == Err::<u32, CodecError>(
                    CodecError::ExpectedNumber(NumberHint::U32, self.value.spec_type_hint()),
                ),
            },
    {
        match self.value {
            Value::Number(Number::U32(n)) => Ok(*n),
            _ => Err(CodecError::ExpectedNumber(NumberHint::U32, self.value.type_hint())),
        }
    }

    /// Decode a `u64`: succeeds exactly on a number of that width.
    pub fn decode_u64(&self) -> (r: Result<u64, CodecError>)
        ensures
            match *self.value {
                Value::Number(Number::U64(n)) => r == Ok::<u64, CodecError>(n),
                _ => r == Err::<u64, CodecError>(
                    CodecError::ExpectedNumber(NumberHint::U64, self.value.spec_type_hint()),
                ),
            },
    {
        match self.value {
            Value::Number(Number::U64(n)) => Ok(*n),
            _ => Err(CodecError::ExpectedNumber(NumberHint::U64, self.value.type_hint())),
        }
    }

    /// Decode a `u128`: succeeds exactly on a number of that width.
    pub fn decode_u128(&self) -> (r: Result<u128, CodecError>)
        ensures
            match *self.value {
                Value::Number(Number::U128(n)) => r == Ok::<u128, CodecError>(n),
                _ => r == Err::<u128, CodecError>(
                    CodecError::ExpectedNumber(NumberHint::U128, self.value.spec_type_hint()),
                ),
            },
    {
        match self.value {
            Value::Number(Number::U128(n)) => Ok(*n),
            _ => Err(CodecError::ExpectedNumber(NumberHint::U128, self.value.type_hint())),
        }
    }

    /// Decode an `i8`: succeeds exactly on a number of that width.
    pub fn decode_i8(&self) -> (r: Result<i8, CodecError>)
        ensures
            match *self.value {
                Value::Number(Number::I8(n)) => r == Ok::<i8, CodecError>(n),
                _ => r == Err::<i8, CodecError>(
                    CodecError::ExpectedNumber(NumberHint::I8, self.value.spec_type_hint()),
                ),
            },
    {
        match self.value {
            Value::Number(Number::I8(n)) => Ok(*n),
            _ => Err(CodecError::ExpectedNumber(NumberHint::I8, self.value.type_hint())),
        }
    }

    /// Decode an `i16`: succeeds exactly on a number of that width.
    pub fn decode_i16(&self) -> (r: Result<i16, CodecError>)
        ensures
            match *self.value {
                Value::Number(Number::I16(n)) => r == Ok::<i16, CodecError>(n),
                _ => r == Err::<i16, CodecError>(
                    CodecError::ExpectedNumber(NumberHint::I16, self.value.spec_type_hint()),
                ),
            },
    {
        match self.value {
            Value::Number(Number::I16(n)) => Ok(*n),
            _ => Err(CodecError::ExpectedNumber(NumberHint::I16, self.value.type_hint())),
        }
    }

    /// Decode an `i32`: succeeds exactly on a number of that width.
    pub fn decode_i32(&self) -> (r: Result<i32, CodecError>)
        ensures
            match *self.value {
                Value::Number(Number::I32(n)) => r == Ok::<i32, CodecError>(n),
                _ => r == Err::<i32, CodecError>(
                    CodecError::ExpectedNumber(NumberHint::I32, self.value.spec_type_hint()),
                ),
            },
    {
        match self.value {
            Value::Number(Number::I32(n)) => Ok(*n),
            _ => Err(CodecError::ExpectedNumber(NumberHint::I32, self.value.type_hint())),
        }
    }

    /// Decode an `i64`: succeeds exactly on a number of that width.
    pub fn decode_i64(&self) -> (r: Result<i64, CodecError>)
        ensures
            match *self.value {
                Value::Number(Number::I64(n)) => r == Ok::<i64, CodecError>(n),
                _ => r == Err::<i64, CodecError>(
                    CodecError::ExpectedNumber(NumberHint::I64, self.value.spec_type_hint()),
                ),
            },
    {
        match self.value {
            Value::Number(Number::I64(n)) => Ok(*n),
            _ => Err(CodecError::ExpectedNumber(NumberHint::I64, self.value.type_hint())),
        }
    }

    /// Decode an `i128`: succeeds exactly on a number of that width.
    pub fn decode_i128(&self) -> (r: Result<i128, CodecError>)
        ensures
            match *self.value {
                Value::Number(Number::I128(n)) => r == Ok::<i128, CodecError>(n),
                _ => r == Err::<i128, CodecError>(
                    CodecError::ExpectedNumber(NumberHint::I128, self.value.spec_type_hint()),
                ),
            },
    {
        match self.value {
            Value::Number(Number::I128(n)) => Ok(*n),
            _ => Err(CodecError::ExpectedNumber(NumberHint::I128, self.value.type_hint())),
        }
    }

    /// Decode a `usize`: succeeds exactly on a number of that width.
    pub fn decode_usize(&self) -> (r: Result<usize, CodecError>)
        ensures
            match *self.value {
                Value::Number(Number::Usize(n)) => r == Ok::<usize, CodecError>(n),
                _ => r == Err::<usize, CodecError>(
                    CodecError::ExpectedNumber(NumberHint::Usize, self.value.spec_type_hint()),
                ),
            },
    {
        match self.value {
            Value::Number(Number::Usize(n)) => Ok(*n),
            _ => Err(CodecError::ExpectedNumber(NumberHint::Usize, self.value.type_hint())),
        }
    }

    /// Decode an `isize`: succeeds exactly on a number of that width.
    pub fn decode_isize(&self) -> (r: Result<isize, CodecError>)
        ensures
            match *self.value {
                Value::Number(Number::Isize(n)) => r == Ok::<isize, CodecError>(n),
                _ => r == Err::<isize, CodecError>(
                    CodecError::ExpectedNumber(NumberHint::Isize, self.value.spec_type_hint()),
                ),
            },
    {
        match self.value {
            Value::Number(Number::Isize(n)) => Ok(*n),
            _ => Err(CodecError::ExpectedNumber(NumberHint::Isize, self.value.type_hint())),
        }
    }

    /// Decode the raw bits of an `f32`: succeeds exactly on that width.
    pub fn decode_f32_bits(&self) -> (r: Result<u32, CodecError>)
        ensures
            match *self.value {
                Value::Number(Number::F32Bits(n)) => r == Ok::<u32, CodecError>(n),
                _ => r == Err::<u32, CodecError>(
                    CodecError::ExpectedNumber(NumberHint::F32, self.value.spec_type_hint()),
                ),
            },
    {
        match self.value {
            Value::Number(Number::F32Bits(n)) => Ok(*n),
            _ => Err(CodecError::ExpectedNumber(NumberHint::F32, self.value.type_hint())),
        }
    }

    /// Decode the raw bits of an `f64`: succeeds exactly on that width.
    pub fn decode_f64_bits(&self) -> (r: Result<u64, CodecError>)
        ensures
            match *self.value {
                Value::Number(Number::F64Bits(n)) => r == Ok::<u64, CodecError>(n),
                _ => r == Err::<u64, CodecError>(
                    CodecError::ExpectedNumber(NumberHint::F64, self.value.spec_type_hint()),
                ),
            },
    {
        match self.value {
            Value::Number(Number::F64Bits(n)) => Ok(*n),
            _ => Err(CodecError::ExpectedNumber(NumberHint::F64, self.value.type_hint())),
        }
    }

    /// Decode a fixed-size array of `n` bytes: succeeds exactly on a byte
    /// buffer of exactly that length.
    pub fn decode_array(&self, n: usize) -> (r: Result<&'a Vec<u8>, CodecError>)
        ensures
            match *self.value {
                Value::Bytes(b) => if b@.len() == n {
                    r matches Ok(out) && out@ == b@
                } else {
                    r == Err::<&'a Vec<u8>, CodecError>(CodecError::ArrayOutOfBounds)
                },
                _ => r == Err::<&'a Vec<u8>, CodecError>(
                    CodecError::ExpectedBytes(self.value.spec_type_hint()),
                ),
            },
    {
        match self.value {
            Value::Bytes(b) => if b.len() == n {
                Ok(b)
            } else {
                Err(CodecError::ArrayOutOfBounds)
            },
            _ => Err(CodecError::ExpectedBytes(self.value.type_hint())),
        }
    }

    /// Decode bytes, borrowed from the tree: succeeds exactly on a byte
    /// buffer.
    pub fn decode_bytes(&self) -> (r: Result<&'a Vec<u8>, CodecError>)
        ensures
            match *self.value {
                Value::Bytes(b) => r matches Ok(out) && out@ == b@,
                _ => r == Err::<&'a Vec<u8>, CodecError>(
                    CodecError::ExpectedBytes(self.value.spec_type_hint()),
                ),
            },
    {
        match self.value {
            Value::Bytes(b) => Ok(b),
            _ => Err(CodecError::ExpectedBytes(self.value.type_hint())),
        }
    }

    /// Decode a string, borrowed from the tree: succeeds exactly on a
    /// string.
    pub fn decode_string(&self) -> (r: Result<&'a String, CodecError>)
        ensures
            match *self.value {
                Value::String(s) => r matches Ok(out) && out@ == s@,
                _ => r == Err::<&'a String, CodecError>(
                    CodecError::ExpectedString(self.value.spec_type_hint()),
                ),
            },
    {
        match self.value {
            Value::String(s) => Ok(s),
            _ => Err(CodecError::ExpectedString(self.value.type_hint())),
        }
    }

    /// Decode an option: a unit is `None`; any other value is `Some` of
    /// itself.  This mirrors the wire, where `None` and unit share an
    /// encoding.
    pub fn decode_option(&self) -> (r: Result<Option<ValueDecoder<'a>>, CodecError>)
        ensures
            *self.value is Unit ==> r == Ok::<Option<ValueDecoder<'a>>, CodecError>(None),
            !(*self.value is Unit) ==> (r matches Ok(Some(d)) && d.value == self.value),
    {
        match self.value {
            Value::Unit => Ok(None),
            _ => Ok(Some(ValueDecoder { value: self.value })),
        }
    }

    /// Decode a pack: iterate the items of a sequence.
    pub fn decode_pack(&self) -> (r: Result<IterValueDecoder<'a>, CodecError>)
        ensures
            match *self.value {
                Value::Sequence(vs) => r matches Ok(d) && d.values@ == vs@ && d.index == 0,
                _ => r == Err::<IterValueDecoder<'a>, CodecError>(
                    CodecError::ExpectedSequence(self.value.spec_type_hint()),
                ),
            },
    {
        match self.value {
            Value::Sequence(vs) => Ok(IterValueDecoder { values: vs, index: 0 }),
            _ => Err(CodecError::ExpectedSequence(self.value.type_hint())),
        }
    }

    /// Decode a sequence: iterate its items in order.
    pub fn decode_sequence(&self) -> (r: Result<IterValueDecoder<'a>, CodecError>)
        ensures
            match *self.value {
                Value::Sequence(vs) => r matches Ok(d) && d.values@ == vs@ && d.index == 0,
                _ => r == Err::<IterValueDecoder<'a>, CodecError>(
                    CodecError::ExpectedSequence(self.value.spec_type_hint()),
                ),
            },
    {
        match self.value {
            Value::Sequence(vs) => Ok(IterValueDecoder { values: vs, index: 0 }),
            _ => Err(CodecError::ExpectedSequence(self.value.type_hint())),
        }
    }

    /// Decode a tuple of the given arity; the layout is a sequence.
    pub fn decode_tuple(&self, _len: usize) -> (r: Result<IterValueDecoder<'a>, CodecError>)
        ensures
            match *self.value {
                Value::Sequence(vs) => r matches Ok(d) && d.values@ == vs@ && d.index == 0,
                _ => r == Err::<IterValueDecoder<'a>, CodecError>(
                    CodecError::ExpectedSequence(self.value.spec_type_hint()),
                ),
            },
    {
        self.decode_sequence()
    }

    /// Decode a map: iterate its pairs in insertion order.
    pub fn decode_map(&self) -> (r: Result<IterValuePairsDecoder<'a>, CodecError>)
        ensures
            match *self.value {
                Value::Mapping(ps) => r matches Ok(d) && d.pairs@ == ps@ && d.index == 0,
                _ => r == Err::<IterValuePairsDecoder<'a>, CodecError>(
                    CodecError::ExpectedMap(self.value.spec_type_hint()),
                ),
            },
    {
        match self.value {
            Value::Mapping(ps) => Ok(IterValuePairsDecoder { pairs: ps, index: 0 }),
            _ => Err(CodecError::ExpectedMap(self.value.type_hint())),
        }
    }

    /// Decode a struct of the given field count; the layout is a map.
    pub fn decode_struct(&self, _len: usize) -> (r: Result<IterValuePairsDecoder<'a>, CodecError>)
        ensures
            match *self.value {
                Value::Mapping(ps) => r matches Ok(d) && d.pairs@ == ps@ && d.index == 0,
                _ => r == Err::<IterValuePairsDecoder<'a>, CodecError>(
                    CodecError::ExpectedMap(self.value.spec_type_hint()),
                ),
            },
    {
        self.decode_map()
    }

    /// Decode a variant: its tag value and body.
    pub fn decode_variant(&self) -> (r: Result<IterValueVariantDecoder<'a>, CodecError>)
        ensures
            match *self.value {
                Value::Variant(bx) => r matches Ok(d) && *d.pair == *bx,
                _ => r == Err::<IterValueVariantDecoder<'a>, CodecError>(
                    CodecError::ExpectedVariant(self.value.spec_type_hint()),
                ),
            },
    {
        match self.value {
            Value::Variant(bx) => Ok(IterValueVariantDecoder { pair: bx }),
            _ => Err(CodecError::ExpectedVariant(self.value.type_hint())),
        }
    }
}

/// A decoder iterating the items of a sequence in the tree.
pub struct IterValueDecoder<'a> {
    /// The items being iterated.
    pub values: &'a Vec<Value>,
    /// The next item to hand out.
    pub index: usize,
}

impl<'a> IterValueDecoder<'a> {
    /// A decoder over the given items, starting at the first.
    pub fn new(values: &'a Vec<Value>) -> (r: IterValueDecoder<'a>)
        ensures
            r.values@ == values@,
            r.index == 0,
    {
        IterValueDecoder { values, index: 0 }
    }

    /// How many items remain.
    pub fn size_hint(&self) -> (r: Option<usize>)
        requires
            self.index <= self.values@.len(),
        ensures
            r == Some((self.values@.len() - self.index) as usize),
    {
        Some(self.values.len() - self.index)
    }

    /// The next item, or `None` at the end.
    pub fn next(&mut self) -> (r: Result<Option<ValueDecoder<'a>>, CodecError>)
        ensures
            final(self).values == old(self).values,
            old(self).index < old(self).values@.len() ==> ({
                &&& r matches Ok(Some(d)) && *d.value == old(self).values@[old(self).index as int]
                &&& final(self).index == old(self).index + 1
            }),
            old(self).index >= old(self).values@.len() ==> r == Ok::<
                Option<ValueDecoder<'a>>,
                CodecError,
            >(None) && final(self).index == old(self).index,
    {
        if self.index < self.values.len() {
            let d = ValueDecoder { value: &self.values[self.index] };
            self.index = self.index + 1;
            Ok(Some(d))
        } else {
            Ok(None)
        }
    }

    /// The next item of a pack, which must exist: a pack that runs out of
    /// elements is `ExpectedPackValue`.
    pub fn next_required(&mut self) -> (r: Result<ValueDecoder<'a>, CodecError>)
        ensures
            final(self).values == old(self).values,
            old(self).index < old(self).values@.len() ==> ({
                &&& r matches Ok(d) && *d.value == old(self).values@[old(self).index as int]
                &&& final(self).index == old(self).index + 1
            }),
            old(self).index >= old(self).values@.len() ==> r == Err::<
                ValueDecoder<'a>,
                CodecError,
            >(CodecError::ExpectedPackValue) && final(self).index == old(self).index,
    {
        if self.index < self.values.len() {
            let d = ValueDecoder { value: &self.values[self.index] };
            self.index = self.index + 1;
            Ok(d)
        } else {
            Err(CodecError::ExpectedPackValue)
        }
    }
}

/// A decoder iterating the pairs of a map in the tree.
pub struct IterValuePairsDecoder<'a> {
    /// The pairs being iterated.
    pub pairs: &'a Vec<(Value, Value)>,
    /// The next pair to hand out.
    pub index: usize,
}

impl<'a> IterValuePairsDecoder<'a> {
    /// A decoder over the given pairs, starting at the first.
    pub fn new(pairs: &'a Vec<(Value, Value)>) -> (r: IterValuePairsDecoder<'a>)
        ensures
            r.pairs@ == pairs@,
            r.index == 0,
    {
        IterValuePairsDecoder { pairs, index: 0 }
    }

    /// How many pairs remain.
    pub fn size_hint(&self) -> (r: Option<usize>)
        requires
            self.index <= self.pairs@.len(),
        ensures
            r == Some((self.pairs@.len() - self.index) as usize),
    {
        Some(self.pairs.len() - self.index)
    }

    /// The next pair, or `None` at the end.
    pub fn next(&mut self) -> (r: Result<Option<IterValuePairDecoder<'a>>, CodecError>)
        ensures
            final(self).pairs == old(self).pairs,
            old(self).index < old(self).pairs@.len() ==> ({
                &&& r matches Ok(Some(d)) && *d.pair == old(self).pairs@[old(self).index as int]
                &&& final(self).index == old(self).index + 1
            }),
            old(self).index >= old(self).pairs@.len() ==> r == Ok::<
                Option<IterValuePairDecoder<'a>>,
                CodecError,
            >(None) && final(self).index == old(self).index,
    {
        if self.index < self.pairs.len() {
            let d = IterValuePairDecoder { pair: &self.pairs[self.index] };
            self.index = self.index + 1;
            Ok(Some(d))
        } else {
            Ok(None)
        }
    }
}

/// A decoder over one key/value pair of the tree.
pub struct IterValuePairDecoder<'a> {
    /// The pair being decoded.
    pub pair: &'a (Value, Value),
}

impl<'a> IterValuePairDecoder<'a> {
    /// A decoder over the given pair.
    pub fn new(pair: &'a (Value, Value)) -> (r: IterValuePairDecoder<'a>)
        ensures
            *r.pair == *pair,
    {
        IterValuePairDecoder { pair }
    }

    /// The first half: the key of a map entry or the field of a struct.
    pub fn first(&self) -> (r: Result<ValueDecoder<'a>, CodecError>)
        ensures
            r matches Ok(d) && *d.value == self.pair.0,
    {
        Ok(ValueDecoder { value: &self.pair.0 })
    }

    /// The second half: the value.
    pub fn second(self) -> (r: Result<ValueDecoder<'a>, CodecError>)
        ensures
            r matches Ok(d) && *d.value == self.pair.1,
    {
        Ok(ValueDecoder { value: &self.pair.1 })
    }

    /// Skip the second half.  The data already sits in memory, so skipping
    /// trivially succeeds and the iteration simply moves on.
    pub fn skip_second(self) -> (r: Result<bool, CodecError>)
        ensures
            r == Ok::<bool, CodecError>(true),
    {
        Ok(true)
    }
}

/// A decoder over a variant in the tree: its tag value and body.
pub struct IterValueVariantDecoder<'a> {
    /// The tag value and the body.
    pub pair: &'a (Value, Value),
}

impl<'a> IterValueVariantDecoder<'a> {
    /// A decoder over the given tag/body pair.
    pub fn new(pair: &'a (Value, Value)) -> (r: IterValueVariantDecoder<'a>)
        ensures
            *r.pair == *pair,
    {
        IterValueVariantDecoder { pair }
    }

    /// The tag value naming the variant.
    pub fn tag(&self) -> (r: Result<ValueDecoder<'a>, CodecError>)
        ensures
            r matches Ok(d) && *d.value == self.pair.0,
    {
        Ok(ValueDecoder { value: &self.pair.0 })
    }

    /// The body of the variant.
    pub fn variant(&self) -> (r: Result<ValueDecoder<'a>, CodecError>)
        ensures
            r matches Ok(d) && *d.value == self.pair.1,
    {
        Ok(ValueDecoder { value: &self.pair.1 })
    }

    /// Skip the body.  The data already sits in memory, so skipping
    /// trivially succeeds and the iteration simply moves on.
    pub fn skip_variant(&self) -> (r: Result<bool, CodecError>)
        ensures
            r == Ok::<bool, CodecError>(true),
    {
        Ok(true)
    }

    /// Finish with this variant.
    pub fn end(self) -> (r: Result<(), CodecError>)
        ensures
            r is Ok,
    {
        Ok(())
    }
}

impl Value {
    /// A decoder positioned on this value.
    pub fn decoder(&self) -> (r: ValueDecoder<'_>)
        ensures
            r.value == self,
    {
        ValueDecoder { value: self }
    }
}

} // verus!
