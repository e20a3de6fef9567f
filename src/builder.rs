//! The pre-sized string builder as an output buffer of the engine. It holds
//! the UTF-8 bytes of what was appended; it stays well formed while those
//! bytes are valid UTF-8, which appending text keeps.
use crate::fmt::{custom_format, render, unit_specs, window, window_units, StringAppend, Value};
use string_builder::Builder;
use vstd::prelude::*;
use vstd::string::StringExecFns;
use vstd::utf8::{
    decode_utf8, decode_utf8_encode_utf8, encode_scalar, encode_utf8, encode_utf8_decode_utf8,
    encode_utf8_valid_utf8, valid_utf8, valid_utf8_concat,
};

verus! {

#[verifier::external_type_specification]
#[verifier::external_body]
pub struct ExBuilder(Builder);

#[verifier::external_type_specification]
#[verifier::external_body]
pub struct ExFromUtf8Error(std::string::FromUtf8Error);

/// The bytes a builder holds.
pub uninterp spec fn builder_bytes(b: Builder) -> Seq<u8>;

/// Relies on string_builder's `Builder::new`: a builder with room for
/// `size` bytes that holds none.
#[verifier::external_body]
fn builder_new(size: usize) -> (r: Builder)
    ensures
        builder_bytes(r) == Seq::<u8>::empty(),
{
    Builder::new(size)
}

/// Relies on string_builder's `Builder::append` of a `&str`: it adds the
/// string's UTF-8 bytes at the end.
#[verifier::external_body]
fn builder_append(b: &mut Builder, s: &str)
    ensures
        builder_bytes(*final(b)) == builder_bytes(*old(b)) + encode_utf8(s@),
{
    b.append(s)
}

/// Relies on string_builder's `Builder::len`: the number of bytes held.
#[verifier::external_body]
fn builder_len(b: &Builder) -> (r: usize)
    ensures
        r == builder_bytes(*b).len(),
{
    b.len()
}

/// Relies on string_builder's `Builder::string`, which hands the bytes to
/// `String::from_utf8`: the text they encode where they are valid UTF-8,
/// an error otherwise.
#[verifier::external_body]
fn builder_string(b: Builder) -> (r: Result<String, std::string::FromUtf8Error>)
    ensures
        r is Ok <==> valid_utf8(builder_bytes(b)),
        r is Ok ==> r->Ok_0@ == decode_utf8(builder_bytes(b)),
{
    b.string()
}

/// Encoding two texts one after the other gives the encoding of both.
proof fn lemma_encode_concat(x: Seq<char>, y: Seq<char>)
    ensures
        encode_utf8(x) + encode_utf8(y) == encode_utf8(x + y),
    decreases x.len(),
{
    if x.len() > 0 {
        lemma_encode_concat(x.drop_first(), y);
        assert((x + y).drop_first() =~= x.drop_first() + y);
        assert((x + y)[0] == x[0]);
        assert(encode_utf8(x) + encode_utf8(y) =~= encode_scalar(x[0] as u32) + (encode_utf8(x.drop_first()) + encode_utf8(y)));
    } else {
        assert(x + y =~= y);
        assert(encode_utf8(x) + encode_utf8(y) =~= encode_utf8(y));
    }
}

/// Adding the encoding of a text to valid UTF-8 keeps it valid and adds
/// the text to what it decodes to.
proof fn lemma_append_text(bytes: Seq<u8>, s: Seq<char>)
    requires
        valid_utf8(bytes),
    ensures
        valid_utf8(bytes + encode_utf8(s)),
        decode_utf8(bytes + encode_utf8(s)) == decode_utf8(bytes) + s,
{
    decode_utf8_encode_utf8(bytes);
    lemma_encode_concat(decode_utf8(bytes), s);
    encode_utf8_valid_utf8(decode_utf8(bytes) + s);
    encode_utf8_decode_utf8(decode_utf8(bytes) + s);
}

/// Appends a string to a builder that holds valid UTF-8.
fn push_text(b: &mut Builder, s: &str)
    requires
        valid_utf8(builder_bytes(*old(b))),
    ensures
        valid_utf8(builder_bytes(*final(b))),
        decode_utf8(builder_bytes(*final(b))) == decode_utf8(builder_bytes(*old(b))) + s@,
{
    proof {
        lemma_append_text(builder_bytes(*b), s@);
    }
    builder_append(b, s);
}

impl<V: Value> StringAppend<V> for Builder {
    open spec fn text(&self) -> Seq<char> {
        decode_utf8(builder_bytes(*self))
    }

    open spec fn wf(&self) -> bool {
        valid_utf8(builder_bytes(*self))
    }

    fn append_value_s(&mut self, value: V, units: &str) {
        let digits = value.to_decimal();
        push_text(self, digits.as_str());
        push_text(self, units);
        proof {
            reveal_strlit("s");
        }
        push_text(self, "s");
    }

    fn append_value(&mut self, value: V, units: &str) {
        let digits = value.to_decimal();
        push_text(self, digits.as_str());
        push_text(self, units);
    }

    fn append_divider(&mut self) {
        if builder_len(self) > 0 {
            proof {
                reveal_strlit(" ");
            }
            push_text(self, " ");
        }
        proof {
            if builder_bytes(*old(self)).len() == 0 {
                assert(decode_utf8(builder_bytes(*old(self))) == Seq::<char>::empty());
            }
        }
    }
}

/// Formats `value` over `table`, smallest unit first, keeping the units from
/// index `from` on, through a builder sized for `capacity` bytes: the same
/// text as the growable string gives.
pub fn format_window_built<V: Value>(
    table: &Vec<(V, &'static str, &'static str)>,
    from: usize,
    short_units: bool,
    value: V,
    capacity: usize,
) -> (r: String)
    requires
        from <= table@.len(),
        forall|i: int| 0 <= i < table@.len() ==> (#[trigger] table@[i]).0.val() > 0,
    ensures
        r@ == render(seq![], window(unit_specs(table@), from as int), short_units, value.val()),
{
    let units = window_units(table, from);
    let mut b = builder_new(capacity);
    proof {
        assert(decode_utf8(builder_bytes(b)) =~= Seq::<char>::empty());
    }
    custom_format(&mut b, units.as_slice(), short_units, value);
    match builder_string(b) {
        Ok(s) => s,
        Err(_) => {
            proof {
                assert(false);
            }
            String::new()
        },
    }
}

} // verus!
