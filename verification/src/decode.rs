//! Row decoding: permissive textual fields become typed values.
//!
//! Integer decoding follows the silent-fallback policy: empty or unparsable
//! text yields exactly zero, and a strict variant reports whether the text
//! was a well-formed integer at all. Tag-list decoding strips one leading
//! `[` and one trailing `]` and splits the remainder on commas, without
//! trimming the pieces.

use vstd::prelude::*;
use vstd::string::StrSliceExecFns;
use vstd::string::StringExecFns;

verus! {

/// The decimal digits, as the integer grammar accepts them.
pub open spec fn is_digit(c: char) -> bool {
    48 <= c as u32 <= 57
}

/// Numeric value of one decimal digit.
pub open spec fn digit_val(c: char) -> int {
    (c as u32) - 48
}

/// Whether every character of `s` is a decimal digit.
pub open spec fn all_digits(s: Seq<char>) -> bool {
    forall|k: int| 0 <= k < s.len() ==> is_digit(#[trigger] s[k])
}

/// Value of a digit string, most significant digit first.
pub open spec fn digits_value(s: Seq<char>) -> int
    decreases s.len(),
{
    if s.len() == 0 {
        0
    } else {
        digits_value(s.drop_last()) * 10 + digit_val(s.last())
    }
}

/// The digit portion of an integer literal: everything after an optional
/// single leading sign.
pub open spec fn digits_part(s: Seq<char>) -> Seq<char> {
    if s.len() > 0 && (s[0] == '+' || s[0] == '-') {
        s.drop_first()
    } else {
        s
    }
}

/// Whether the literal carries a leading minus sign.
pub open spec fn is_negative_literal(s: Seq<char>) -> bool {
    s.len() > 0 && s[0] == '-'
}

/// Whether `s` is a well-formed 64-bit signed integer: an optional single
/// sign, then one or more decimal digits, with the value in range.
pub open spec fn parses_as_i64(s: Seq<char>) -> bool {
    let d = digits_part(s);
    &&& d.len() > 0
    &&& all_digits(d)
    &&& (if is_negative_literal(s) {
        -digits_value(d) >= i64::MIN
    } else {
        digits_value(d) <= i64::MAX
    })
}

/// The value of a well-formed integer literal.
pub open spec fn i64_literal_value(s: Seq<char>) -> int {
    if is_negative_literal(s) {
        -digits_value(digits_part(s))
    } else {
        digits_value(digits_part(s))
    }
}

/// The silent-fallback decode: the literal's value, or zero where the text
/// is empty or not a well-formed integer.
pub open spec fn decoded_integer(s: Seq<char>) -> int {
    if parses_as_i64(s) {
        i64_literal_value(s)
    } else {
        0
    }
}

proof fn lemma_digits_value_nonneg(s: Seq<char>)
    requires
        all_digits(s),
    ensures
        digits_value(s) >= 0,
    decreases s.len(),
{
    if s.len() > 0 {
        assert(all_digits(s.drop_last()));
        lemma_digits_value_nonneg(s.drop_last());
    }
}

/// Strict integer parse: `Some` exactly on well-formed 64-bit integers.
pub fn try_parse_i64(number_string: &String) -> (r: Option<i64>)
    ensures
        r is Some <==> parses_as_i64(number_string@),
        r is Some ==> r->0 as int == i64_literal_value(number_string@),
{
    let ghost sv = number_string@;
    let s: &str = number_string.as_str();
    let len: usize = s.unicode_len();
    let mut idx: usize = 0;
    let mut neg: bool = false;
    if len > 0 {
        let c0: char = s.get_char(0);
        if c0 == '+' {
            idx = 1;
        } else if c0 == '-' {
            neg = true;
            idx = 1;
        }
    }
    proof {
        assert(digits_part(sv) =~= sv.subrange(idx as int, len as int));
        assert(neg == is_negative_literal(sv));
    }
    if idx >= len {
        // no digits at all
        return None;
    }
    let mut mag: u128 = 0;
    let mut too_big: bool = false;
    let mut i: usize = idx;
    while i < len
        invariant
            idx <= i <= len,
            len == sv.len(),
            s@ == sv,
            number_string@ == sv,
            digits_part(sv) =~= sv.subrange(idx as int, len as int),
            neg == is_negative_literal(sv),
            forall|k: int| idx <= k < i ==> is_digit(#[trigger] sv[k]),
            !too_big ==> mag == digits_value(sv.subrange(idx as int, i as int)) && mag
                <= 0x8000_0000_0000_0000u128,
            too_big ==> digits_value(sv.subrange(idx as int, i as int)) > 0x8000_0000_0000_0000,
        decreases len - i,
    {
        let c: char = s.get_char(i);
        let u: u32 = c as u32;
        if u < 48 || u > 57 {
            // a non-digit in the digit portion: not an integer
            assert(!is_digit(sv[i as int]));
            assert(digits_part(sv)[i - idx] == sv[i as int]);
            assert(!all_digits(digits_part(sv)));
            assert(!parses_as_i64(sv));
            return None;
        }
        let d: u128 = (u - 48) as u128;
        let ghost pre = sv.subrange(idx as int, i as int);
        let ghost cur = sv.subrange(idx as int, i + 1 as int);
        proof {
            assert(cur.drop_last() =~= pre);
            assert(cur.last() == sv[i as int]);
            assert(digits_value(cur) == digits_value(pre) * 10 + digit_val(sv[i as int]));
        }
        if !too_big {
            mag = mag * 10 + d;
            if mag > 0x8000_0000_0000_0000u128 {
                too_big = true;
            }
        } else {
            proof {
                assert(forall|k: int| 0 <= k < pre.len() ==> is_digit(#[trigger] pre[k]));
                lemma_digits_value_nonneg(pre);
            }
        }
        i += 1;
    }
    let ghost dv = digits_part(sv);
    proof {
        assert(dv =~= sv.subrange(idx as int, len as int));
        assert(all_digits(dv));
    }
    if too_big {
        // magnitude exceeds 2^63: out of range for either sign
        return None;
    }
    if neg {
        if mag == 0x8000_0000_0000_0000u128 {
            return Some(i64::MIN);
        }
        return Some(-(mag as i64));
    }
    if mag > 0x7FFF_FFFF_FFFF_FFFFu128 {
        // 2^63 is out of range without the minus sign
        return None;
    }
    Some(mag as i64)
}

/// The silent-fallback integer decode: empty or unparsable text yields zero.
pub fn unwrap_integer(number_string: &String) -> (n: i64)
    ensures
        n as int == decoded_integer(number_string@),
{
    match try_parse_i64(number_string) {
        Some(v) => v,
        None => 0,
    }
}

/// Decoding an integer field never aborts: on text that is not a well-formed
/// integer — the empty string included — the decoded value is exactly zero.
pub proof fn lemma_unwrap_integer_total(s: Seq<char>)
    ensures
        !parses_as_i64(s) ==> decoded_integer(s) == 0,
        s.len() == 0 ==> decoded_integer(s) == 0,
{
    if s.len() == 0 {
        assert(digits_part(s).len() == 0);
        assert(!parses_as_i64(s));
    }
}

/// Split on commas: the list of (possibly empty) pieces between commas.
pub open spec fn split_commas(s: Seq<char>) -> Seq<Seq<char>>
    decreases s.len(),
{
    if s.len() == 0 {
        seq![Seq::<char>::empty()]
    } else if s[0] == ',' {
        seq![Seq::<char>::empty()] + split_commas(s.drop_first())
    } else {
        let r = split_commas(s.drop_first());
        r.update(0, seq![s[0]] + r[0])
    }
}

proof fn lemma_split_commas_len(s: Seq<char>)
    ensures
        split_commas(s).len() >= 1,
    decreases s.len(),
{
    if s.len() > 0 {
        lemma_split_commas_len(s.drop_first());
    }
}

proof fn lemma_split_commas_chunk(s: Seq<char>, j: int)
    requires
        0 <= j <= s.len(),
        forall|k: int| 0 <= k < j ==> #[trigger] s[k] != ',',
        j < s.len() ==> s[j] == ',',
    ensures
        j < s.len() ==> split_commas(s) =~= seq![s.take(j)] + split_commas(s.skip(j + 1)),
        j == s.len() ==> split_commas(s) =~= seq![s],
    decreases j,
{
    lemma_split_commas_len(s);
    if j == 0 {
        if j < s.len() {
            assert(s.take(0) =~= Seq::<char>::empty());
            assert(s.skip(1) =~= s.drop_first());
        } else {
            assert(s =~= Seq::<char>::empty());
        }
    } else {
        let t = s.drop_first();
        lemma_split_commas_len(t);
        lemma_split_commas_chunk(t, j - 1);
        let r = split_commas(t);
        assert(s[0] != ',');
        assert(split_commas(s) == r.update(0, seq![s[0]] + r[0]));
        if j < s.len() {
            assert(r =~= seq![t.take(j - 1)] + split_commas(t.skip(j)));
            assert(r[0] == t.take(j - 1));
            assert(seq![s[0]] + t.take(j - 1) =~= s.take(j));
            assert(t.skip(j) =~= s.skip(j + 1));
            assert(r.update(0, seq![s[0]] + r[0]) =~= seq![s.take(j)] + split_commas(s.skip(j + 1)));
        } else {
            assert(r =~= seq![t]);
            assert(seq![s[0]] + t =~= s);
            assert(r.update(0, seq![s[0]] + r[0]) =~= seq![s]);
        }
    }
}

/// The text between one stripped leading `[` and one stripped trailing `]`.
pub open spec fn inner_text(s: Seq<char>) -> Seq<char> {
    let t = s.drop_first();
    if t.len() > 0 && t.last() == ']' {
        t.drop_last()
    } else {
        t
    }
}

/// The decoded tag list: empty unless the text starts with `[`; otherwise
/// the comma-separated pieces of the bracket-stripped remainder, untrimmed.
pub open spec fn tag_list(s: Seq<char>) -> Seq<Seq<char>> {
    if s.len() == 0 {
        Seq::<Seq<char>>::empty()
    } else if s[0] != '[' {
        Seq::<Seq<char>>::empty()
    } else if inner_text(s).len() == 0 {
        Seq::<Seq<char>>::empty()
    } else {
        split_commas(inner_text(s))
    }
}

/// The tag-list decode: empty or bracket-less text yields no tags; otherwise
/// one leading `[` and one trailing `]` are stripped and the remainder is
/// split on commas. No trimming happens here; trimming of each element is
/// the consumer's concern.
pub fn unwrap_string_array(array_string: &String) -> (tags: Vec<String>)
    ensures
        tags.deep_view() == tag_list(array_string@),
{
    let ghost sv = array_string@;
    let s: &str = array_string.as_str();
    let len: usize = s.unicode_len();
    if len == 0 {
        let tags: Vec<String> = Vec::new();
        proof {
            assert(tags.deep_view() =~= tag_list(sv));
        }
        return tags;
    }
    if s.get_char(0) != '[' {
        let tags: Vec<String> = Vec::new();
        proof {
            assert(tags.deep_view() =~= tag_list(sv));
        }
        return tags;
    }
    let mut end: usize = len;
    if len > 1 && s.get_char(len - 1) == ']' {
        end = len - 1;
    }
    proof {
        assert(inner_text(sv) =~= sv.subrange(1, end as int));
    }
    if end <= 1 {
        let tags: Vec<String> = Vec::new();
        proof {
            assert(inner_text(sv).len() == 0);
            assert(tags.deep_view() =~= tag_list(sv));
        }
        return tags;
    }
    let ghost inner = sv.subrange(1, end as int);
    let mut tags: Vec<String> = Vec::new();
    let mut start: usize = 1;
    let mut i: usize = 1;
    proof {
        assert(tags.deep_view() =~= Seq::<Seq<char>>::empty());
    }
    while i < end
        invariant
            1 <= start <= i <= end <= len,
            len == sv.len(),
            s@ == sv,
            array_string@ == sv,
            end < len ==> end + 1 == len,
            inner =~= sv.subrange(1, end as int),
            inner.len() > 0,
            forall|k: int| start <= k < i ==> #[trigger] sv[k] != ',',
            tags.deep_view() + split_commas(sv.subrange(start as int, end as int))
                =~= split_commas(inner),
        decreases end - i,
    {
        if s.get_char(i) == ',' {
            let piece: &str = s.substring_char(start, i);
            let piece_string: String = String::from_str(piece);
            let ghost old_tags = tags.deep_view();
            tags.push(piece_string);
            proof {
                let rest = sv.subrange(start as int, end as int);
                lemma_split_commas_chunk(rest, i - start);
                assert(rest.take(i - start) =~= sv.subrange(start as int, i as int));
                assert(rest.skip(i - start + 1) =~= sv.subrange(i + 1 as int, end as int));
                assert(piece_string@ == sv.subrange(start as int, i as int));
                assert(tags.deep_view() =~= old_tags.push(piece_string@));
            }
            start = i + 1;
        }
        i += 1;
    }
    let piece: &str = s.substring_char(start, end);
    let piece_string: String = String::from_str(piece);
    let ghost old_tags = tags.deep_view();
    tags.push(piece_string);
    proof {
        let rest = sv.subrange(start as int, end as int);
        lemma_split_commas_chunk(rest, end - start);
        assert(piece_string@ == sv.subrange(start as int, end as int));
        assert(tags.deep_view() =~= old_tags.push(piece_string@));
        assert(tags.deep_view() =~= split_commas(inner));
        assert(tag_list(sv) == split_commas(inner_text(sv)));
        assert(split_commas(inner_text(sv)) =~= split_commas(inner));
    }
    tags
}

/// Whether the retweet flag text is exactly `True`.
pub fn is_true_flag(s: &String) -> (b: bool)
    ensures
        b == (s@ == "True"@),
{
    let t: String = String::from_str("True");
    let b: bool = *s == t;
    b
}

} // verus!
