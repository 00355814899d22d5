//! String and number utilities.
use vstd::prelude::*;
use core::cmp::Ordering;
use vstd::std_specs::cmp::PartialOrdSpec;
use vstd::utf8::{decode_utf8, is_char_boundary};
use vstd::string::StringSliceAdditionalSpecFns;
use crate::text::{chars_of, push_chars, push_str, slice_vec};

verus! {

/// A string cut to at most `max_length` bytes: unchanged when it fits,
/// otherwise its first `max_length - 3` bytes followed by `...`.
pub fn truncate(s: &str, max_length: usize) -> (r: String)
    requires
        s.spec_bytes().len() <= usize::MAX,
        s.spec_bytes().len() > max_length ==> max_length >= 3 && is_char_boundary(
            s.spec_bytes(),
            max_length - 3,
        ),
    ensures
        s.spec_bytes().len() <= max_length ==> r@ == s@,
        s.spec_bytes().len() > max_length ==> r@ == decode_utf8(
            s.spec_bytes().subrange(0, max_length - 3),
        ) + "..."@,
{
    if s.len() <= max_length {
        s.to_owned()
    } else {
        let (head, _tail) = s.split_at(max_length - 3);
        proof {
            vstd::utf8::encode_utf8_decode_utf8(head@);
        }
        assert(head@ == decode_utf8(s.spec_bytes().subrange(0, max_length - 3)));
        let mut r = head.to_owned();
        push_str(&mut r, "...");
        r
    }
}

/// What `char::to_uppercase` yields for `c`.
pub uninterp spec fn uppercase_of(c: char) -> Seq<char>;

/// The uppercase form of a character (`char::to_uppercase`, collected into
/// a string). Beyond naming the result, only the ASCII cases are stated:
/// a lowercase ASCII letter gives its capital, any other ASCII character
/// gives itself.
#[verifier::external_body]
fn char_to_uppercase(c: char) -> (r: String)
    ensures
        r@ == uppercase_of(c),
        'a' <= c <= 'z' ==> r@ == seq![((c as u32) - 32) as char],
        (c as u32) < 128 && !('a' <= c <= 'z') ==> r@ == seq![c],
{
    c.to_uppercase().collect::<String>()
}

/// The string with its first character in upper case.
pub open spec fn capitalized(s: Seq<char>) -> Seq<char> {
    if s.len() == 0 {
        Seq::empty()
    } else {
        uppercase_of(s[0]) + s.skip(1)
    }
}

/// Capitalizes the first letter of a string: a lowercase ASCII letter
/// becomes its capital, any other ASCII character stays as it is.
pub fn capitalize(s: &str) -> (r: String)
    ensures
        r@ == capitalized(s@),
        s@.len() > 0 && 'a' <= s@[0] <= 'z' ==> r@ == seq![((s@[0] as u32) - 32) as char] + s@.skip(1),
        s@.len() > 0 && (s@[0] as u32) < 128 && !('a' <= s@[0] <= 'z') ==> r@ == s@,
        s@.len() == 0 ==> r@.len() == 0,
{
    let cs = chars_of(s);
    if cs.len() == 0 {
        String::new()
    } else {
        let mut r = char_to_uppercase(cs[0]);
        let rest = slice_vec(cs.as_slice(), 1, cs.len());
        push_chars(&mut r, rest.as_slice());
        assert(cs@.subrange(1, cs@.len() as int) =~= s@.skip(1));
        assert(seq![s@[0]] + s@.skip(1) =~= s@);
        r
    }
}

/// Clamps a value between a minimum and a maximum: `min` when the value
/// is below it, else `max` when the value is above it, else the value.
pub fn clamp<T: PartialOrd>(value: T, min: T, max: T) -> (r: T)
    ensures
        T::obeys_partial_cmp_spec() ==> r == if value.partial_cmp_spec(&min) == Some(Ordering::Less) {
            min
        } else if value.partial_cmp_spec(&max) == Some(Ordering::Greater) {
            max
        } else {
            value
        },
{
    if value < min {
        min
    } else if value > max {
        max
    } else {
        value
    }
}

} // verus!
