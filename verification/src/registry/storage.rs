//! The byte form of a patch.
//!
//! Every number is written as eight bytes, least significant first. A text is
//! written as the length of its UTF-8 encoding and then the encoding; a list
//! as its length and then its items. For each kind of value there is what is
//! written for it, what is read back from the front of a byte string, and a
//! proof that reading what was written gives the value back and leaves what
//! followed it.

use crate::engine::parts::{AutomationLane, InputConnection};
use crate::registry::save_data::{SavedControl, SavedControlView, SavedModule, SavedModuleView};
use crate::scalar::Scalar;
use std::string::FromUtf8Error;
use vstd::bytes::*;
use vstd::prelude::*;
use vstd::slice::slice_subrange;
use vstd::string::*;
use vstd::utf8::*;

verus! {

/// What is written for a number.
pub open spec fn put_word(x: u64) -> Seq<u8> {
    spec_u64_to_le_bytes(x)
}

/// The number at the front of `bytes`, and what follows it.
pub open spec fn take_word(bytes: Seq<u8>) -> Option<(u64, Seq<u8>)> {
    if bytes.len() >= 8 {
        Some((spec_u64_from_le_bytes(bytes.subrange(0, 8)), bytes.skip(8)))
    } else {
        None
    }
}

/// Reading a written number gives it back.
pub proof fn lemma_word_round(x: u64, rest: Seq<u8>)
    ensures
        put_word(x).len() == 8,
        take_word(put_word(x) + rest) == Some((x, rest)),
{
    lemma_auto_spec_u64_to_from_le_bytes();
    assert((put_word(x) + rest).subrange(0, 8) =~= put_word(x));
    assert((put_word(x) + rest).skip(8) =~= rest);
}

fn write_word(x: u64, out: &mut Vec<u8>)
    ensures
        final(out)@ == old(out)@ + put_word(x),
{
    let mut bytes: Vec<u8> = u64_to_le_bytes(x);
    out.append(&mut bytes);
}

fn read_word(bytes: &[u8], at: usize) -> (read: Option<(u64, usize)>)
    requires
        at <= bytes@.len(),
    ensures
        match take_word(bytes@.skip(at as int)) {
            Some((x, rest)) => {
                &&& read matches Some((y, next))
                &&& y == x
                &&& next == at + 8
                &&& at + 8 <= bytes@.len()
                &&& rest == bytes@.skip(at + 8)
            },
            None => read is None,
        },
{
    if bytes.len() - at < 8 {
        return None;
    }
    let word: &[u8] = slice_subrange(bytes, at, at + 8);
    assert(bytes@.skip(at as int).subrange(0, 8) =~= bytes@.subrange(at as int, at + 8));
    assert(bytes@.skip(at as int).skip(8) =~= bytes@.skip(at + 8));
    Some((u64_from_le_bytes(word), at + 8))
}

/// What the standard library reports of bytes that are no text.
#[verifier::external_type_specification]
#[verifier::external_body]
pub struct ExFromUtf8Error(FromUtf8Error);

/// Turns bytes into text.
///
/// Wraps `String::from_utf8`, which succeeds exactly on well-formed UTF-8 and
/// then gives the text that these bytes encode.
#[verifier::external_body]
pub(crate) fn text_from_utf8(bytes: Vec<u8>) -> (text: Result<String, FromUtf8Error>)
    ensures
        text is Ok <==> valid_utf8(bytes@),
        text matches Ok(t) ==> encode_utf8(t@) == bytes@,
{
    String::from_utf8(bytes)
}

/// What the standard library says of bytes that are no text.
///
/// Wraps the error's `Display`. Nothing is claimed of the words.
#[verifier::external_body]
pub(crate) fn utf8_error_text(error: &FromUtf8Error) -> (text: String) {
    format!("{}", error)
}

/// A value that has a byte form.
pub trait Stored: Sized {
    /// The value, as what is written of it.
    type Model;

    /// The value, as what is written of it.
    spec fn model(&self) -> Self::Model;

    /// All the lengths in the value can be written down.
    spec fn storable(m: Self::Model) -> bool;

    /// What is written for the value.
    spec fn put(m: Self::Model) -> Seq<u8>;

    /// The value at the front of `bytes`, and what follows it.
    spec fn take(bytes: Seq<u8>) -> Option<(Self::Model, Seq<u8>)>;

    /// Reading a written value gives it back.
    proof fn lemma_round(m: Self::Model, rest: Seq<u8>)
        requires
            Self::storable(m),
        ensures
            Self::take(Self::put(m) + rest) == Some((m, rest)),
    ;

    /// Writes the value at the end of `out`. A value that is at hand can
    /// always be written: its lengths are a machine's.
    fn write(&self, out: &mut Vec<u8>)
        ensures
            Self::storable(self.model()),
            final(out)@ == old(out)@ + Self::put(self.model()),
    ;

    /// Reads a value from `bytes` at `at`. Returns it with the place where
    /// what follows it begins.
    fn read(bytes: &[u8], at: usize) -> (read: Option<(Self, usize)>)
        requires
            at <= bytes@.len(),
        ensures
            match Self::take(bytes@.skip(at as int)) {
                Some((m, rest)) => {
                    &&& read matches Some((x, next))
                    &&& x.model() == m
                    &&& at <= next <= bytes@.len()
                    &&& rest == bytes@.skip(next as int)
                },
                None => read is None,
            },
    ;
}

impl Stored for usize {
    type Model = usize;

    open spec fn model(&self) -> usize {
        *self
    }

    open spec fn storable(m: usize) -> bool {
        true
    }

    open spec fn put(m: usize) -> Seq<u8> {
        put_word(m as u64)
    }

    open spec fn take(bytes: Seq<u8>) -> Option<(usize, Seq<u8>)> {
        match take_word(bytes) {
            Some((x, rest)) => if x <= usize::MAX {
                Some((x as usize, rest))
            } else {
                None
            },
            None => None,
        }
    }

    proof fn lemma_round(m: usize, rest: Seq<u8>) {
        lemma_word_round(m as u64, rest);
    }

    fn write(&self, out: &mut Vec<u8>) {
        write_word(*self as u64, out);
    }

    fn read(bytes: &[u8], at: usize) -> (read: Option<(Self, usize)>) {
        match read_word(bytes, at) {
            Some((x, next)) => {
                if x <= usize::MAX as u64 {
                    Some((x as usize, next))
                } else {
                    None
                }
            },
            None => None,
        }
    }
}

impl Stored for Scalar {
    type Model = Scalar;

    open spec fn model(&self) -> Scalar {
        *self
    }

    open spec fn storable(m: Scalar) -> bool {
        true
    }

    open spec fn put(m: Scalar) -> Seq<u8> {
        put_word(m.bits as u64)
    }

    open spec fn take(bytes: Seq<u8>) -> Option<(Scalar, Seq<u8>)> {
        match take_word(bytes) {
            Some((x, rest)) => if x <= u32::MAX {
                Some((Scalar { bits: x as u32 }, rest))
            } else {
                None
            },
            None => None,
        }
    }

    proof fn lemma_round(m: Scalar, rest: Seq<u8>) {
        lemma_word_round(m.bits as u64, rest);
    }

    fn write(&self, out: &mut Vec<u8>) {
        write_word(self.bits as u64, out);
    }

    fn read(bytes: &[u8], at: usize) -> (read: Option<(Self, usize)>) {
        match read_word(bytes, at) {
            Some((x, next)) => {
                if x <= u32::MAX as u64 {
                    Some((Scalar { bits: x as u32 }, next))
                } else {
                    None
                }
            },
            None => None,
        }
    }
}

impl Stored for i32 {
    type Model = i32;

    open spec fn model(&self) -> i32 {
        *self
    }

    open spec fn storable(m: i32) -> bool {
        true
    }

    open spec fn put(m: i32) -> Seq<u8> {
        put_word((m + 0x8000_0000) as u64)
    }

    open spec fn take(bytes: Seq<u8>) -> Option<(i32, Seq<u8>)> {
        match take_word(bytes) {
            Some((x, rest)) => if x <= u32::MAX {
                Some(((x - 0x8000_0000) as i32, rest))
            } else {
                None
            },
            None => None,
        }
    }

    proof fn lemma_round(m: i32, rest: Seq<u8>) {
        lemma_word_round((m + 0x8000_0000) as u64, rest);
    }

    fn write(&self, out: &mut Vec<u8>) {
        write_word((*self as i64 + 0x8000_0000) as u64, out);
    }

    fn read(bytes: &[u8], at: usize) -> (read: Option<(Self, usize)>) {
        match read_word(bytes, at) {
            Some((x, next)) => {
                if x <= u32::MAX as u64 {
                    Some(((x as i64 - 0x8000_0000) as i32, next))
                } else {
                    None
                }
            },
            None => None,
        }
    }
}

impl Stored for String {
    type Model = Seq<char>;

    open spec fn model(&self) -> Seq<char> {
        self@
    }

    open spec fn storable(m: Seq<char>) -> bool {
        encode_utf8(m).len() <= usize::MAX
    }

    open spec fn put(m: Seq<char>) -> Seq<u8> {
        put_word(encode_utf8(m).len() as u64) + encode_utf8(m)
    }

    open spec fn take(bytes: Seq<u8>) -> Option<(Seq<char>, Seq<u8>)> {
        match take_word(bytes) {
            Some((n, rest)) => if n <= rest.len() && valid_utf8(rest.subrange(0, n as int)) {
                Some((decode_utf8(rest.subrange(0, n as int)), rest.skip(n as int)))
            } else {
                None
            },
            None => None,
        }
    }

    proof fn lemma_round(m: Seq<char>, rest: Seq<u8>) {
        let code = encode_utf8(m);
        lemma_word_round(code.len() as u64, code + rest);
        assert(Self::put(m) + rest =~= put_word(code.len() as u64) + (code + rest));
        assert((code + rest).subrange(0, code.len() as int) =~= code);
        assert((code + rest).skip(code.len() as int) =~= rest);
        encode_utf8_valid_utf8(m);
        encode_utf8_decode_utf8(m);
    }

    fn write(&self, out: &mut Vec<u8>) {
        let code: &[u8] = self.as_str().as_bytes();
        write_word(code.len() as u64, out);
        let ghost headed = out@;
        let mut i: usize = 0;
        while i < code.len()
            invariant
                i <= code.len(),
                out@ == headed + code@.subrange(0, i as int),
            decreases code.len() - i,
        {
            out.push(code[i]);
            i += 1;
            assert(out@ =~= headed + code@.subrange(0, i as int));
        }
        assert(code@.subrange(0, code@.len() as int) =~= code@);
        assert(out@ =~= old(out)@ + Self::put(self@));
    }

    fn read(bytes: &[u8], at: usize) -> (read: Option<(Self, usize)>) {
        let (n, from) = match read_word(bytes, at) {
            Some((n, from)) => (n, from),
            None => {
                return None;
            },
        };
        if n > (bytes.len() - from) as u64 {
            return None;
        }
        let len: usize = n as usize;
        let ghost rest = bytes@.skip(from as int);
        let mut code: Vec<u8> = Vec::new();
        let mut i: usize = 0;
        while i < len
            invariant
                i <= len,
                from + len <= bytes@.len(),
                code@ == bytes@.subrange(from as int, from + i),
            decreases len - i,
        {
            code.push(bytes[from + i]);
            i += 1;
            assert(code@ =~= bytes@.subrange(from as int, from + i));
        }
        assert(code@ =~= rest.subrange(0, n as int));
        assert(rest.skip(n as int) =~= bytes@.skip(from + len));
        match text_from_utf8(code) {
            Ok(text) => {
                proof {
                    encode_utf8_decode_utf8(text@);
                }
                Some((text, from + len))
            },
            Err(_) => None,
        }
    }
}

/// What is written for the items of a list, one after the other.
pub open spec fn put_items<T: Stored>(items: Seq<T::Model>) -> Seq<u8>
    decreases items.len(),
{
    if items.len() == 0 {
        Seq::empty()
    } else {
        T::put(items[0]) + put_items::<T>(items.skip(1))
    }
}

/// The `n` items at the front of `bytes`, and what follows them.
pub open spec fn take_items<T: Stored>(bytes: Seq<u8>, n: nat) -> Option<(Seq<T::Model>, Seq<u8>)>
    decreases n,
{
    if n == 0 {
        Some((Seq::empty(), bytes))
    } else {
        match T::take(bytes) {
            Some((first, rest)) => match take_items::<T>(rest, (n - 1) as nat) {
                Some((others, end)) => Some((seq![first] + others, end)),
                None => None,
            },
            None => None,
        }
    }
}

/// Every item of a list can be written.
pub open spec fn items_storable<T: Stored>(items: Seq<T::Model>) -> bool {
    forall|i: int| 0 <= i < items.len() ==> T::storable(#[trigger] items[i])
}

proof fn lemma_put_items_push<T: Stored>(items: Seq<T::Model>, last: T::Model)
    ensures
        put_items::<T>(items.push(last)) == put_items::<T>(items) + T::put(last),
    decreases items.len(),
{
    let all = items.push(last);
    if items.len() == 0 {
        assert(all.skip(1) =~= Seq::<T::Model>::empty());
        assert(all[0] == last);
        assert(put_items::<T>(all) == T::put(all[0]) + put_items::<T>(all.skip(1)));
        assert(put_items::<T>(all) =~= put_items::<T>(items) + T::put(last));
    } else {
        assert(all.skip(1) =~= items.skip(1).push(last));
        lemma_put_items_push::<T>(items.skip(1), last);
        assert(all[0] == items[0]);
        assert(put_items::<T>(all) == T::put(all[0]) + put_items::<T>(all.skip(1)));
        assert(put_items::<T>(items) == T::put(items[0]) + put_items::<T>(items.skip(1)));
        assert(put_items::<T>(all) =~= put_items::<T>(items) + T::put(last));
    }
}

proof fn lemma_items_round<T: Stored>(items: Seq<T::Model>, rest: Seq<u8>)
    requires
        items_storable::<T>(items),
    ensures
        take_items::<T>(put_items::<T>(items) + rest, items.len()) == Some((items, rest)),
    decreases items.len(),
{
    if items.len() == 0 {
        assert(put_items::<T>(items) + rest =~= rest);
    } else {
        let others = items.skip(1);
        assert(items_storable::<T>(others)) by {
            assert forall|i: int| 0 <= i < others.len() implies T::storable(#[trigger] others[i]) by {
                assert(others[i] == items[i + 1]);
            }
        }
        assert(put_items::<T>(items) + rest =~= T::put(items[0]) + (put_items::<T>(others) + rest));
        T::lemma_round(items[0], put_items::<T>(others) + rest);
        lemma_items_round::<T>(others, rest);
        assert(seq![items[0]] + others =~= items);
    }
}

/// The items of a vector, each as what is written of it.
pub open spec fn models<T: Stored>(items: Seq<T>) -> Seq<T::Model> {
    Seq::new(items.len(), |i: int| items[i].model())
}

impl<T: Stored> Stored for Vec<T> {
    type Model = Seq<T::Model>;

    open spec fn model(&self) -> Seq<T::Model> {
        models::<T>(self@)
    }

    open spec fn storable(m: Seq<T::Model>) -> bool {
        m.len() <= usize::MAX && items_storable::<T>(m)
    }

    open spec fn put(m: Seq<T::Model>) -> Seq<u8> {
        put_word(m.len() as u64) + put_items::<T>(m)
    }

    open spec fn take(bytes: Seq<u8>) -> Option<(Seq<T::Model>, Seq<u8>)> {
        match take_word(bytes) {
            Some((n, rest)) => if n <= usize::MAX {
                take_items::<T>(rest, n as nat)
            } else {
                None
            },
            None => None,
        }
    }

    proof fn lemma_round(m: Seq<T::Model>, rest: Seq<u8>) {
        lemma_word_round(m.len() as u64, put_items::<T>(m) + rest);
        assert(Self::put(m) + rest =~= put_word(m.len() as u64) + (put_items::<T>(m) + rest));
        lemma_items_round::<T>(m, rest);
    }

    fn write(&self, out: &mut Vec<u8>) {
        write_word(self.len() as u64, out);
        let ghost headed = out@;
        let ghost all = self.model();
        let mut i: usize = 0;
        assert(all.subrange(0, 0) =~= Seq::<T::Model>::empty());
        assert(out@ =~= headed + put_items::<T>(all.subrange(0, 0)));
        while i < self.len()
            invariant
                i <= self.len(),
                all == self.model(),
                out@ == headed + put_items::<T>(all.subrange(0, i as int)),
                forall|j: int| 0 <= j < i ==> T::storable(#[trigger] all[j]),
            decreases self.len() - i,
        {
            let ghost before = out@;
            self[i].write(out);
            proof {
                lemma_put_items_push::<T>(all.subrange(0, i as int), all[i as int]);
                assert(all.subrange(0, i as int).push(all[i as int]) =~= all.subrange(0, i + 1));
                assert(out@ =~= headed + put_items::<T>(all.subrange(0, i + 1)));
            }
            i += 1;
        }
        assert(all.subrange(0, all.len() as int) =~= all);
        assert(out@ =~= old(out)@ + Self::put(all));
    }

    fn read(bytes: &[u8], at: usize) -> (read: Option<(Self, usize)>) {
        let (n, from) = match read_word(bytes, at) {
            Some((n, from)) => (n, from),
            None => {
                return None;
            },
        };
        if n > usize::MAX as u64 {
            return None;
        }
        let count: usize = n as usize;
        let ghost whole = take_items::<T>(bytes@.skip(from as int), count as nat);
        let mut items: Vec<T> = Vec::new();
        let mut cur: usize = from;
        let mut i: usize = 0;
        assert(models::<T>(items@) =~= Seq::<T::Model>::empty());
        assert(whole == match take_items::<T>(bytes@.skip(cur as int), (count - i) as nat) {
            Some((others, end)) => Some((models::<T>(items@) + others, end)),
            None => None,
        }) by {
            match take_items::<T>(bytes@.skip(cur as int), (count - i) as nat) {
                Some((others, end)) => {
                    assert(models::<T>(items@) + others =~= others);
                },
                None => {},
            }
        }
        while i < count
            invariant
                i <= count,
                from <= cur <= bytes@.len(),
                at <= from,
                Self::take(bytes@.skip(at as int)) == whole,
                whole == match take_items::<T>(bytes@.skip(cur as int), (count - i) as nat) {
                    Some((others, end)) => Some((models::<T>(items@) + others, end)),
                    None => None,
                },
            decreases count - i,
        {
            let ghost so_far = models::<T>(items@);
            proof {
                let here = bytes@.skip(cur as int);
                assert(take_items::<T>(here, (count - i) as nat) == match T::take(here) {
                    Some((first, rest)) => match take_items::<T>(rest, (count - i - 1) as nat) {
                        Some((others, end)) => Some((seq![first] + others, end)),
                        None => None,
                    },
                    None => None,
                });
            }
            match T::read(bytes, cur) {
                Some((item, next)) => {
                    proof {
                        match take_items::<T>(bytes@.skip(next as int), (count - i - 1) as nat) {
                            Some((others, end)) => {
                                assert(models::<T>(items@.push(item)) =~= so_far.push(item.model()));
                                assert(so_far.push(item.model()) + others =~= so_far + (seq![item.model()] + others));
                            },
                            None => {},
                        }
                    }
                    items.push(item);
                    cur = next;
                },
                None => {
                    return None;
                },
            }
            i += 1;
        }
        assert(models::<T>(items@) + Seq::<T::Model>::empty() =~= models::<T>(items@));
        Some((items, cur))
    }
}

impl Stored for AutomationLane {
    type Model = AutomationLane;

    open spec fn model(&self) -> AutomationLane {
        *self
    }

    open spec fn storable(m: AutomationLane) -> bool {
        true
    }

    open spec fn put(m: AutomationLane) -> Seq<u8> {
        usize::put(m.connection.0) + (usize::put(m.connection.1) + (Scalar::put(m.range.0) + Scalar::put(
            m.range.1,
        )))
    }

    open spec fn take(bytes: Seq<u8>) -> Option<(AutomationLane, Seq<u8>)> {
        match usize::take(bytes) {
            Some((module, r1)) => match usize::take(r1) {
                Some((output, r2)) => match Scalar::take(r2) {
                    Some((low, r3)) => match Scalar::take(r3) {
                        Some((high, r4)) => Some(
                            (AutomationLane { connection: (module, output), range: (low, high) }, r4),
                        ),
                        None => None,
                    },
                    None => None,
                },
                None => None,
            },
            None => None,
        }
    }

    proof fn lemma_round(m: AutomationLane, rest: Seq<u8>) {
        let a = usize::put(m.connection.0);
        let b = usize::put(m.connection.1);
        let c = Scalar::put(m.range.0);
        let d = Scalar::put(m.range.1);
        assert(Self::put(m) + rest =~= a + (b + (c + (d + rest))));
        usize::lemma_round(m.connection.0, b + (c + (d + rest)));
        usize::lemma_round(m.connection.1, c + (d + rest));
        Scalar::lemma_round(m.range.0, d + rest);
        Scalar::lemma_round(m.range.1, rest);
    }

    fn write(&self, out: &mut Vec<u8>) {
        self.connection.0.write(out);
        self.connection.1.write(out);
        self.range.0.write(out);
        self.range.1.write(out);
        assert(out@ =~= old(out)@ + Self::put(*self));
    }

    fn read(bytes: &[u8], at: usize) -> (read: Option<(Self, usize)>) {
        let (module, at1) = match usize::read(bytes, at) {
            Some(found) => found,
            None => {
                return None;
            },
        };
        let (output, at2) = match usize::read(bytes, at1) {
            Some(found) => found,
            None => {
                return None;
            },
        };
        let (low, at3) = match Scalar::read(bytes, at2) {
            Some(found) => found,
            None => {
                return None;
            },
        };
        let (high, at4) = match Scalar::read(bytes, at3) {
            Some(found) => found,
            None => {
                return None;
            },
        };
        Some((AutomationLane { connection: (module, output), range: (low, high) }, at4))
    }
}

/// The number that stands for a wire.
pub const WIRE_TAG: usize = 1;

/// The number that stands for a built-in source.
pub const DEFAULT_TAG: usize = 0;

impl Stored for InputConnection {
    type Model = InputConnection;

    open spec fn model(&self) -> InputConnection {
        *self
    }

    open spec fn storable(m: InputConnection) -> bool {
        true
    }

    open spec fn put(m: InputConnection) -> Seq<u8> {
        match m {
            InputConnection::Wire(module, output) => usize::put(WIRE_TAG) + (usize::put(module) + usize::put(
                output,
            )),
            InputConnection::Default(option) => usize::put(DEFAULT_TAG) + usize::put(option),
        }
    }

    open spec fn take(bytes: Seq<u8>) -> Option<(InputConnection, Seq<u8>)> {
        match usize::take(bytes) {
            Some((tag, r1)) => if tag == WIRE_TAG {
                match usize::take(r1) {
                    Some((module, r2)) => match usize::take(r2) {
                        Some((output, r3)) => Some((InputConnection::Wire(module, output), r3)),
                        None => None,
                    },
                    None => None,
                }
            } else if tag == DEFAULT_TAG {
                match usize::take(r1) {
                    Some((option, r2)) => Some((InputConnection::Default(option), r2)),
                    None => None,
                }
            } else {
                None
            },
            None => None,
        }
    }

    proof fn lemma_round(m: InputConnection, rest: Seq<u8>) {
        match m {
            InputConnection::Wire(module, output) => {
                let a = usize::put(WIRE_TAG);
                let b = usize::put(module);
                let c = usize::put(output);
                assert(Self::put(m) + rest =~= a + (b + (c + rest)));
                usize::lemma_round(WIRE_TAG, b + (c + rest));
                usize::lemma_round(module, c + rest);
                usize::lemma_round(output, rest);
            },
            InputConnection::Default(option) => {
                let a = usize::put(DEFAULT_TAG);
                let b = usize::put(option);
                assert(Self::put(m) + rest =~= a + (b + rest));
                usize::lemma_round(DEFAULT_TAG, b + rest);
                usize::lemma_round(option, rest);
            },
        }
    }

    fn write(&self, out: &mut Vec<u8>) {
        match self {
            InputConnection::Wire(module, output) => {
                WIRE_TAG.write(out);
                module.write(out);
                output.write(out);
                assert(out@ =~= old(out)@ + Self::put(*self));
            },
            InputConnection::Default(option) => {
                DEFAULT_TAG.write(out);
                option.write(out);
                assert(out@ =~= old(out)@ + Self::put(*self));
            },
        }
    }

    fn read(bytes: &[u8], at: usize) -> (read: Option<(Self, usize)>) {
        let (tag, at1) = match usize::read(bytes, at) {
            Some(found) => found,
            None => {
                return None;
            },
        };
        if tag == WIRE_TAG {
            let (module, at2) = match usize::read(bytes, at1) {
                Some(found) => found,
                None => {
                    return None;
                },
            };
            let (output, at3) = match usize::read(bytes, at2) {
                Some(found) => found,
                None => {
                    return None;
                },
            };
            Some((InputConnection::Wire(module, output), at3))
        } else if tag == DEFAULT_TAG {
            let (option, at2) = match usize::read(bytes, at1) {
                Some(found) => found,
                None => {
                    return None;
                },
            };
            Some((InputConnection::Default(option), at2))
        } else {
            None
        }
    }
}

impl Stored for SavedControl {
    type Model = SavedControlView;

    open spec fn model(&self) -> SavedControlView {
        self@
    }

    open spec fn storable(m: SavedControlView) -> bool {
        Vec::<AutomationLane>::storable(m.automation)
    }

    open spec fn put(m: SavedControlView) -> Seq<u8> {
        Scalar::put(m.value) + Vec::<AutomationLane>::put(m.automation)
    }

    open spec fn take(bytes: Seq<u8>) -> Option<(SavedControlView, Seq<u8>)> {
        match Scalar::take(bytes) {
            Some((value, r1)) => match Vec::<AutomationLane>::take(r1) {
                Some((automation, r2)) => Some((SavedControlView { value, automation }, r2)),
                None => None,
            },
            None => None,
        }
    }

    proof fn lemma_round(m: SavedControlView, rest: Seq<u8>) {
        let a = Scalar::put(m.value);
        let b = Vec::<AutomationLane>::put(m.automation);
        assert(Self::put(m) + rest =~= a + (b + rest));
        Scalar::lemma_round(m.value, b + rest);
        Vec::<AutomationLane>::lemma_round(m.automation, rest);
    }

    fn write(&self, out: &mut Vec<u8>) {
        self.value.write(out);
        self.automation.write(out);
        assert(self.automation.model() =~= self@.automation);
        assert(out@ =~= old(out)@ + Self::put(self@));
    }

    fn read(bytes: &[u8], at: usize) -> (read: Option<(Self, usize)>) {
        let (value, at1) = match Scalar::read(bytes, at) {
            Some(found) => found,
            None => {
                return None;
            },
        };
        let (automation, at2) = match Vec::<AutomationLane>::read(bytes, at1) {
            Some(found) => found,
            None => {
                return None;
            },
        };
        assert(automation.model() =~= automation@);
        Some((SavedControl { value, automation }, at2))
    }
}

impl Stored for SavedModule {
    type Model = SavedModuleView;

    open spec fn model(&self) -> SavedModuleView {
        self@
    }

    open spec fn storable(m: SavedModuleView) -> bool {
        &&& String::storable(m.resource_name)
        &&& Vec::<SavedControl>::storable(m.controls)
        &&& Vec::<String>::storable(m.complex_controls)
        &&& Vec::<InputConnection>::storable(m.inputs)
    }

    open spec fn put(m: SavedModuleView) -> Seq<u8> {
        String::put(m.resource_name) + (i32::put(m.pos.0) + (i32::put(m.pos.1) + (Vec::<SavedControl>::put(
            m.controls,
        ) + (Vec::<String>::put(m.complex_controls) + Vec::<InputConnection>::put(m.inputs)))))
    }

    open spec fn take(bytes: Seq<u8>) -> Option<(SavedModuleView, Seq<u8>)> {
        match String::take(bytes) {
            Some((resource_name, r1)) => match i32::take(r1) {
                Some((x, r2)) => match i32::take(r2) {
                    Some((y, r3)) => match Vec::<SavedControl>::take(r3) {
                        Some((controls, r4)) => match Vec::<String>::take(r4) {
                            Some((complex_controls, r5)) => match Vec::<InputConnection>::take(r5) {
                                Some((inputs, r6)) => Some(
                                    (
                                        SavedModuleView {
                                            resource_name,
                                            pos: (x, y),
                                            controls,
                                            complex_controls,
                                            inputs,
                                        },
                                        r6,
                                    ),
                                ),
                                None => None,
                            },
                            None => None,
                        },
                        None => None,
                    },
                    None => None,
                },
                None => None,
            },
            None => None,
        }
    }

    proof fn lemma_round(m: SavedModuleView, rest: Seq<u8>) {
        let a = String::put(m.resource_name);
        let b = i32::put(m.pos.0);
        let c = i32::put(m.pos.1);
        let d = Vec::<SavedControl>::put(m.controls);
        let e = Vec::<String>::put(m.complex_controls);
        let f = Vec::<InputConnection>::put(m.inputs);
        assert(Self::put(m) + rest =~= a + (b + (c + (d + (e + (f + rest))))));
        String::lemma_round(m.resource_name, b + (c + (d + (e + (f + rest)))));
        i32::lemma_round(m.pos.0, c + (d + (e + (f + rest))));
        i32::lemma_round(m.pos.1, d + (e + (f + rest)));
        Vec::<SavedControl>::lemma_round(m.controls, e + (f + rest));
        Vec::<String>::lemma_round(m.complex_controls, f + rest);
        Vec::<InputConnection>::lemma_round(m.inputs, rest);
    }

    fn write(&self, out: &mut Vec<u8>) {
        self.resource_name.write(out);
        self.pos.0.write(out);
        self.pos.1.write(out);
        self.controls.write(out);
        self.complex_controls.write(out);
        self.inputs.write(out);
        assert(self.controls.model() =~= self@.controls);
        assert(self.complex_controls.model() =~= self@.complex_controls);
        assert(self.inputs.model() =~= self@.inputs);
        assert(out@ =~= old(out)@ + Self::put(self@));
    }

    fn read(bytes: &[u8], at: usize) -> (read: Option<(Self, usize)>) {
        let (resource_name, at1) = match String::read(bytes, at) {
            Some(found) => found,
            None => {
                return None;
            },
        };
        let (x, at2) = match i32::read(bytes, at1) {
            Some(found) => found,
            None => {
                return None;
            },
        };
        let (y, at3) = match i32::read(bytes, at2) {
            Some(found) => found,
            None => {
                return None;
            },
        };
        let (controls, at4) = match Vec::<SavedControl>::read(bytes, at3) {
            Some(found) => found,
            None => {
                return None;
            },
        };
        let (complex_controls, at5) = match Vec::<String>::read(bytes, at4) {
            Some(found) => found,
            None => {
                return None;
            },
        };
        let (inputs, at6) = match Vec::<InputConnection>::read(bytes, at5) {
            Some(found) => found,
            None => {
                return None;
            },
        };
        assert(controls.model() =~= crate::registry::save_data::saved_control_views(controls@));
        assert(complex_controls.model() =~= crate::registry::save_data::text_views(complex_controls@));
        assert(inputs.model() =~= inputs@);
        Some((SavedModule { resource_name, pos: (x, y), controls, complex_controls, inputs }, at6))
    }
}

} // verus!
