use vstd::prelude::*;
use vstd::string::StrSliceExecFns;

use crate::action::{Action, Direction, FlagMap, Orientation};
use crate::format::OutFormat;
use crate::strutil::str_eq;

verus! {

/// What the argument parser hands the engine: the ordered actions and the
/// flag table.
pub struct Settings {
    pub actions: Vec<Action>,
    pub flags: FlagMap,
}

/// Why a command-line token was rejected; every rejection is fatal before
/// the engine runs.
#[derive(Clone, Copy, Debug, PartialEq, Eq, Structural)]
pub enum ParseError {
    /// Not a `key:value` token with exactly one colon.
    NotKeyValue,
    /// The key names no known action.
    UnknownAction,
    /// The value has the wrong shape for the key's action.
    BadValue,
}

/// `i` is the position of the first `sep` at or after `from`.
pub open spec fn first_sep_from(s: Seq<char>, sep: char, from: int, i: int) -> bool {
    from <= i < s.len() && s[i] == sep && forall|j: int| from <= j < i ==> s[j] != sep
}

/// No `sep` at or after `from`.
pub open spec fn no_sep_from(s: Seq<char>, sep: char, from: int) -> bool {
    forall|j: int| from <= j < s.len() ==> s[j] != sep
}

/// A decimal digit.
pub open spec fn is_digit(c: char) -> bool {
    '0' <= c && c <= '9'
}

/// The value of a decimal digit.
pub open spec fn digit_val(c: char) -> nat {
    (c as int - '0' as int) as nat
}

/// A nonempty run of decimal digits.
pub open spec fn all_digits(s: Seq<char>) -> bool {
    s.len() >= 1 && forall|i: int| 0 <= i < s.len() ==> is_digit(s[i])
}

/// The numeric value of a digit run.
pub open spec fn digits_val(s: Seq<char>) -> nat
    decreases s.len(),
{
    if s.len() == 0 {
        0
    } else {
        10 * digits_val(s.drop_last()) + digit_val(s.last())
    }
}

/// A digit run that names a `u32`.
pub open spec fn u32_numeral(s: Seq<char>) -> bool {
    all_digits(s) && digits_val(s) <= u32::MAX as nat
}

/// Text that names an `i32`: an optional minus, then digits, in range.
pub open spec fn i32_numeral(s: Seq<char>) -> bool {
    if s.len() >= 1 && s[0] == '-' {
        all_digits(s.skip(1)) && digits_val(s.skip(1)) <= 0x8000_0000
    } else {
        all_digits(s) && digits_val(s) <= 0x7fff_ffff
    }
}

/// The value such text names.
pub open spec fn i32_numeral_val(s: Seq<char>) -> int {
    if s.len() >= 1 && s[0] == '-' {
        -(digits_val(s.skip(1)) as int)
    } else {
        digits_val(s) as int
    }
}

/// A nonempty digit run, or two of them around one dot.
pub open spec fn unsigned_decimal(t: Seq<char>) -> bool {
    all_digits(t) || (exists|i: int|
        0 <= i < t.len() && t[i] == '.' && all_digits(#[trigger] t.take(i)) && all_digits(
            t.skip(i + 1),
        ))
}

/// A plain decimal numeral as the fractional filter parameters take it: an
/// optional minus, digits, and optionally a dot with more digits.
pub open spec fn is_decimal(s: Seq<char>) -> bool {
    if s.len() >= 1 && s[0] == '-' {
        unsigned_decimal(s.skip(1))
    } else {
        unsigned_decimal(s)
    }
}

/// A value never shrinks when more digits follow it.
proof fn lemma_digits_val_grows(s: Seq<char>, i: int)
    requires
        0 <= i <= s.len(),
    ensures
        digits_val(s.take(i)) <= digits_val(s),
    decreases s.len() - i,
{
    if i == s.len() {
        assert(s.take(i) =~= s);
    } else {
        assert(s.take(i + 1).drop_last() =~= s.take(i));
        assert(s.take(i + 1).last() == s[i]);
        lemma_digits_val_grows(s, i + 1);
    }
}

/// Split at the first occurrence of `sep`, when there is one.
pub fn split_first<'a>(s: &'a str, sep: char) -> (r: Option<(&'a str, &'a str)>)
    ensures
        match r {
            Some(parts) => exists|i: int|
                #[trigger] first_sep_from(s@, sep, 0, i) && parts.0@ == s@.take(i) && parts.1@
                    == s@.skip(i + 1),
            None => no_sep_from(s@, sep, 0),
        },
{
    let len = s.unicode_len();
    let mut i: usize = 0;
    while i < len && s.get_char(i) != sep
        invariant
            len == s@.len(),
            i <= len,
            forall|j: int| 0 <= j < i ==> s@[j] != sep,
        decreases len - i,
    {
        i += 1;
    }
    if i == len {
        None
    } else {
        let head = s.substring_char(0, i);
        let tail = s.substring_char(i + 1, len);
        proof {
            assert(first_sep_from(s@, sep, 0, i as int));
        }
        Some((head, tail))
    }
}

/// Split a `key:value` token at its one colon; a token without exactly one
/// colon is no key-value pair.
pub fn split_kv<'a>(s: &'a str) -> (r: Result<(&'a str, &'a str), ParseError>)
    ensures
        match r {
            Ok(parts) => exists|i: int|
                #[trigger] first_sep_from(s@, ':', 0, i) && no_sep_from(s@, ':', i + 1) && parts.0@
                    == s@.take(i) && parts.1@ == s@.skip(i + 1),
            Err(e) => {
                &&& e == ParseError::NotKeyValue
                &&& !(exists|i: int|
                    #[trigger] first_sep_from(s@, ':', 0, i) && no_sep_from(s@, ':', i + 1))
            },
        },
{
    match split_first(s, ':') {
        None => {
            proof {
                if exists|i: int| first_sep_from(s@, ':', 0, i) && no_sep_from(s@, ':', i + 1) {
                    let i = choose|i: int|
                        first_sep_from(s@, ':', 0, i) && no_sep_from(s@, ':', i + 1);
                    assert(s@[i] != ':');
                }
            }
            Err(ParseError::NotKeyValue)
        },
        Some((k, v)) => {
            let ghost fi = choose|i: int|
                first_sep_from(s@, ':', 0, i) && k@ == s@.take(i) && v@ == s@.skip(i + 1);
            match split_first(v, ':') {
                None => {
                    proof {
                        assert forall|j: int| fi + 1 <= j < s@.len() implies s@[j] != ':' by {
                            assert(v@[j - fi - 1] != ':');
                        }
                        assert(first_sep_from(s@, ':', 0, fi) && no_sep_from(s@, ':', fi + 1));
                    }
                    Ok((k, v))
                },
                Some(_) => {
                    proof {
                        let ghost gi = choose|i: int| #[trigger] first_sep_from(v@, ':', 0, i);
                        assert(s@[fi + 1 + gi] == ':');
                        if exists|i: int|
                            first_sep_from(s@, ':', 0, i) && no_sep_from(s@, ':', i + 1) {
                            let i = choose|i: int|
                                first_sep_from(s@, ':', 0, i) && no_sep_from(s@, ':', i + 1);
                            if i < fi {
                                assert(s@[i] != ':');
                            } else if i > fi {
                                assert(s@[fi] != ':');
                            } else {
                                assert(s@[fi + 1 + gi] != ':');
                            }
                        }
                    }
                    Err(ParseError::NotKeyValue)
                },
            }
        },
    }
}

/// Read an unsigned decimal numeral that fits in `u32`.
pub fn parse_u32(s: &str) -> (r: Option<u32>)
    ensures
        match r {
            Some(v) => u32_numeral(s@) && v as nat == digits_val(s@),
            None => !u32_numeral(s@),
        },
{
    let len = s.unicode_len();
    if len == 0 {
        return None;
    }
    let mut i: usize = 0;
    let mut acc: u32 = 0;
    while i < len
        invariant
            len == s@.len(),
            1 <= len,
            i <= len,
            forall|j: int| 0 <= j < i ==> is_digit(s@[j]),
            acc as nat == digits_val(s@.take(i as int)),
        decreases len - i,
    {
        let c = s.get_char(i);
        if c < '0' || c > '9' {
            return None;
        }
        let d: u32 = (c as u32) - 48;
        proof {
            assert(s@.take(i as int + 1).drop_last() =~= s@.take(i as int));
            assert(s@.take(i as int + 1).last() == s@[i as int]);
            assert(d as nat == digit_val(s@[i as int]));
        }
        if acc > (u32::MAX - d) / 10 {
            proof {
                assert(10 * (acc as nat) + d as nat > u32::MAX as nat) by (nonlinear_arith)
                    requires
                        acc as nat > ((u32::MAX - d) / 10) as nat,
                        d <= 9,
                ;
                lemma_digits_val_grows(s@, i as int + 1);
            }
            return None;
        }
        acc = acc * 10 + d;
        i += 1;
    }
    proof {
        assert(s@.take(len as int) =~= s@);
    }
    Some(acc)
}

/// Read a signed decimal numeral that fits in `i32`.
pub fn parse_i32(s: &str) -> (r: Option<i32>)
    ensures
        match r {
            Some(v) => i32_numeral(s@) && v as int == i32_numeral_val(s@),
            None => !i32_numeral(s@),
        },
{
    let len = s.unicode_len();
    if len >= 1 && s.get_char(0) == '-' {
        let rest = s.substring_char(1, len);
        proof {
            assert(rest@ =~= s@.skip(1));
        }
        match parse_u32(rest) {
            Some(mag) => {
                if mag > 0x8000_0000 {
                    None
                } else if mag == 0x8000_0000 {
                    Some(i32::MIN)
                } else {
                    Some(-(mag as i32))
                }
            },
            None => None,
        }
    } else {
        match parse_u32(s) {
            Some(v) => {
                if v > 0x7fff_ffff {
                    None
                } else {
                    Some(v as i32)
                }
            },
            None => None,
        }
    }
}

/// Whether the text is a plain decimal numeral, optionally signed and
/// optionally fractional.
pub fn check_decimal(s: &str) -> (r: bool)
    ensures
        r == is_decimal(s@),
{
    let len = s.unicode_len();
    let start: usize = if len >= 1 && s.get_char(0) == '-' {
        1
    } else {
        0
    };
    if len == start {
        return false;
    }
    let mut i: usize = start;
    while i < len && s.get_char(i) != '.'
        invariant
            len == s@.len(),
            ((s@.len() >= 1 && s@[0] == '-') ==> start == 1) && (!(s@.len() >= 1 && s@[0]
                == '-') ==> start == 0),
            start <= i <= len,
            start < len,
            forall|j: int| start <= j < i ==> s@[j] != '.',
            forall|j: int| start <= j < i ==> is_digit(s@[j]),
        decreases len - i,
    {
        let c = s.get_char(i);
        if c < '0' || c > '9' {
            proof {
                let t = s@.subrange(start as int, len as int);
                assert(!unsigned_decimal(t)) by {
                    assert(!is_digit(t[i - start]));
                    assert forall|p: int|
                        0 <= p < t.len() && t[p] == '.' implies !(all_digits(
                        #[trigger] t.take(p),
                    ) && all_digits(t.skip(p + 1))) by {
                        if p + start < i {
                            assert(s@[p + start] != '.');
                        } else if p + start == i {
                            assert(s@[i as int] != '.');
                        } else {
                            assert(t.take(p)[i - start] == s@[i as int]);
                            assert(!is_digit(t.take(p)[i - start]));
                        }
                    }
                }
                lemma_decimal_subrange(s@, start as int);
            }
            return false;
        }
        i += 1;
    }
    if i == len {
        proof {
            let t = s@.subrange(start as int, len as int);
            assert(all_digits(t)) by {
                assert(forall|p: int| 0 <= p < t.len() ==> is_digit(t[p]));
            }
            lemma_decimal_subrange(s@, start as int);
        }
        return true;
    }
    // a dot at i: at least one digit is required on each side of it
    if i == start || i + 1 == len {
        proof {
            let t = s@.subrange(start as int, len as int);
            assert(!unsigned_decimal(t)) by {
                assert(t[i - start] == '.');
                assert(!is_digit(t[i - start]));
                assert forall|p: int|
                    0 <= p < t.len() && t[p] == '.' implies !(all_digits(#[trigger] t.take(p))
                    && all_digits(t.skip(p + 1))) by {
                    if p + start < i {
                        assert(s@[p + start] != '.');
                    } else if p + start == i {
                        if i == start {
                            assert(t.take(p).len() == 0);
                        } else {
                            assert(t.skip(p + 1).len() == 0);
                        }
                    } else {
                        assert(t.take(p)[i - start] == t[i - start]);
                        assert(!is_digit(t.take(p)[i - start]));
                    }
                }
            }
            lemma_decimal_subrange(s@, start as int);
        }
        return false;
    }
    let dot = i;
    let mut j: usize = dot + 1;
    while j < len
        invariant
            len == s@.len(),
            ((s@.len() >= 1 && s@[0] == '-') ==> start == 1) && (!(s@.len() >= 1 && s@[0]
                == '-') ==> start == 0),
            start < dot < j <= len,
            dot + 1 < len,
            s@[dot as int] == '.',
            forall|p: int| start <= p < dot ==> s@[p] != '.' && is_digit(s@[p]),
            forall|p: int| dot < p < j ==> is_digit(s@[p]),
        decreases len - j,
    {
        let c = s.get_char(j);
        if c < '0' || c > '9' {
            proof {
                let t = s@.subrange(start as int, len as int);
                assert(!unsigned_decimal(t)) by {
                    assert(t[dot - start] == '.');
                    assert(!is_digit(t[dot - start]));
                    assert forall|p: int|
                        0 <= p < t.len() && t[p] == '.' implies !(all_digits(
                        #[trigger] t.take(p),
                    ) && all_digits(t.skip(p + 1))) by {
                        if p + start < dot {
                            assert(s@[p + start] != '.');
                        } else if p + start == dot {
                            assert(t.skip(p + 1)[j - dot - 1] == s@[j as int]);
                            assert(!is_digit(t.skip(p + 1)[j - dot - 1]));
                        } else {
                            assert(t.take(p)[dot - start] == s@[dot as int]);
                            assert(!is_digit(t.take(p)[dot - start]));
                        }
                    }
                }
                lemma_decimal_subrange(s@, start as int);
            }
            return false;
        }
        j += 1;
    }
    proof {
        let t = s@.subrange(start as int, len as int);
        let p = dot - start;
        assert(t[p] == '.');
        assert(all_digits(t.take(p))) by {
            assert(forall|q: int| 0 <= q < p ==> is_digit(#[trigger] t.take(p)[q]));
        }
        assert(all_digits(t.skip(p + 1))) by {
            assert(forall|q: int|
                0 <= q < t.skip(p + 1).len() ==> is_digit(#[trigger] t.skip(p + 1)[q]));
        }
        assert(unsigned_decimal(t));
        lemma_decimal_subrange(s@, start as int);
    }
    true
}

/// `is_decimal` of a string is `unsigned_decimal` of what follows its
/// optional sign.
proof fn lemma_decimal_subrange(s: Seq<char>, start: int)
    requires
        0 <= start <= s.len(),
        (s.len() >= 1 && s[0] == '-') ==> start == 1,
        !(s.len() >= 1 && s[0] == '-') ==> start == 0,
    ensures
        is_decimal(s) == unsigned_decimal(s.subrange(start, s.len() as int)),
{
    if s.len() >= 1 && s[0] == '-' {
        assert(s.subrange(1, s.len() as int) =~= s.skip(1));
    } else {
        assert(s.subrange(0, s.len() as int) =~= s);
    }
}


/// The action keys the command line knows.
pub open spec fn known_key(k: Seq<char>) -> bool {
    ||| k == "contrast"@
    ||| k == "brightness"@
    ||| k == "blur"@
    ||| k == "crop"@
    ||| k == "rotate"@
    ||| k == "flip"@
    ||| k == "unsharpen"@
    ||| k == "resize"@
    ||| k == "append"@
    ||| k == "format"@
}

/// One comma at `i` splits `v` into exactly two fields.
pub open spec fn two_fields(v: Seq<char>, i: int) -> bool {
    first_sep_from(v, ',', 0, i) && no_sep_from(v, ',', i + 1)
}

/// Three commas at `i1 < i2 < i3` split `v` into exactly four fields.
pub open spec fn four_fields(v: Seq<char>, i1: int, i2: int, i3: int) -> bool {
    first_sep_from(v, ',', 0, i1) && first_sep_from(v, ',', i1 + 1, i2) && first_sep_from(
        v,
        ',',
        i2 + 1,
        i3,
    ) && no_sep_from(v, ',', i3 + 1)
}

/// The quarter-turn count a rotate value names; `up` is refused, as turning
/// by nothing is not asked for on the command line.
pub open spec fn rotate_dir(v: Seq<char>) -> Option<Direction> {
    if v == "down"@ {
        Some(Direction::Down)
    } else if v == "left"@ {
        Some(Direction::Left)
    } else if v == "right"@ {
        Some(Direction::Right)
    } else {
        None
    }
}

/// The side an append value names.
pub open spec fn append_dir(v: Seq<char>) -> Option<Direction> {
    if v == "left"@ {
        Some(Direction::Left)
    } else if v == "right"@ {
        Some(Direction::Right)
    } else if v == "down"@ || v == "under"@ {
        Some(Direction::Down)
    } else if v == "up"@ || v == "over"@ {
        Some(Direction::Up)
    } else {
        None
    }
}

/// A key and value in a shape some action accepts.
pub open spec fn parseable(k: Seq<char>, v: Seq<char>) -> bool {
    if k == "contrast"@ || k == "blur"@ {
        is_decimal(v)
    } else if k == "brightness"@ {
        i32_numeral(v)
    } else if k == "crop"@ {
        exists|i1: int, i2: int, i3: int|
            #[trigger] four_fields(v, i1, i2, i3) && u32_numeral(v.take(i1)) && u32_numeral(
                v.subrange(i1 + 1, i2),
            ) && u32_numeral(v.subrange(i2 + 1, i3)) && u32_numeral(v.skip(i3 + 1))
    } else if k == "rotate"@ {
        rotate_dir(v) is Some
    } else if k == "flip"@ {
        v == "v"@ || v == "h"@
    } else if k == "unsharpen"@ {
        exists|i: int|
            #[trigger] two_fields(v, i) && is_decimal(v.take(i)) && i32_numeral(v.skip(i + 1))
    } else if k == "resize"@ {
        exists|i: int|
            #[trigger] two_fields(v, i) && u32_numeral(v.take(i)) && u32_numeral(v.skip(i + 1))
    } else if k == "append"@ {
        exists|i: int| #[trigger] two_fields(v, i) && append_dir(v.skip(i + 1)) is Some
    } else if k == "format"@ {
        (exists|i: int|
            #[trigger] two_fields(v, i) && all_digits(v.skip(i + 1)) && digits_val(v.skip(i + 1))
                <= 255) || (no_sep_from(v, ',', 0) && (v == "png"@ || v == "gif"@ || v == "bmp"@
            || v == "ico"@))
    } else {
        false
    }
}

/// The action a key and value name, payload for payload.
pub open spec fn parses_to(k: Seq<char>, v: Seq<char>, a: Action) -> bool {
    match a {
        Action::Contrast(s) => k == "contrast"@ && s@ == v && is_decimal(v),
        Action::Blur(s) => k == "blur"@ && s@ == v && is_decimal(v),
        Action::Brightness(n) => k == "brightness"@ && i32_numeral(v) && n as int
            == i32_numeral_val(v),
        Action::Crop(x, y, cw, ch) => k == "crop"@ && exists|i1: int, i2: int, i3: int|
            #[trigger] four_fields(v, i1, i2, i3) && u32_numeral(v.take(i1)) && u32_numeral(
                v.subrange(i1 + 1, i2),
            ) && u32_numeral(v.subrange(i2 + 1, i3)) && u32_numeral(v.skip(i3 + 1)) && x as nat
                == digits_val(v.take(i1)) && y as nat == digits_val(v.subrange(i1 + 1, i2))
                && cw as nat == digits_val(v.subrange(i2 + 1, i3)) && ch as nat == digits_val(
                v.skip(i3 + 1),
            ),
        Action::Rotate(d) => k == "rotate"@ && rotate_dir(v) == Some(d),
        Action::Flip(o) => k == "flip"@ && ((v == "v"@ && o == Orientation::Vertical) || (v
            == "h"@ && o == Orientation::Horizontal)),
        Action::Unsharpen(s, t) => k == "unsharpen"@ && exists|i: int|
            #[trigger] two_fields(v, i) && s@ == v.take(i) && is_decimal(v.take(i)) && i32_numeral(
                v.skip(i + 1),
            ) && t as int == i32_numeral_val(v.skip(i + 1)),
        Action::Scale(w, h) => k == "resize"@ && exists|i: int|
            #[trigger] two_fields(v, i) && u32_numeral(v.take(i)) && u32_numeral(v.skip(i + 1))
                && w as nat == digits_val(v.take(i)) && h as nat == digits_val(v.skip(i + 1)),
        Action::Append(p, d) => k == "append"@ && exists|i: int|
            #[trigger] two_fields(v, i) && p@ == v.take(i) && append_dir(v.skip(i + 1)) == Some(d),
        Action::Format(f) => k == "format"@ && ((exists|i: int|
            #[trigger] two_fields(v, i) && all_digits(v.skip(i + 1)) && digits_val(v.skip(i + 1))
                <= 255 && f == OutFormat::Jpeg(digits_val(v.skip(i + 1)) as u8)) || (no_sep_from(
            v,
            ',',
            0,
        ) && ((v == "png"@ && f == OutFormat::Png) || (v == "gif"@ && f == OutFormat::Gif) || (v
            == "bmp"@ && f == OutFormat::Bmp) || (v == "ico"@ && f == OutFormat::Ico)))),
        Action::Invert => false,
    }
}

/// The first separator position is unique.
proof fn lemma_first_sep_unique(s: Seq<char>, sep: char, from: int, i: int, j: int)
    requires
        first_sep_from(s, sep, from, i),
        first_sep_from(s, sep, from, j),
    ensures
        i == j,
{
    if i < j {
        assert(s[i] != sep);
    } else if j < i {
        assert(s[j] != sep);
    }
}


/// The one comma of a two-field value is the only split position.
proof fn lemma_two_unique(v: Seq<char>, i: int)
    requires
        two_fields(v, i),
    ensures
        forall|j: int| #[trigger] two_fields(v, j) ==> j == i,
{
    assert forall|j: int| #[trigger] two_fields(v, j) implies j == i by {
        lemma_first_sep_unique(v, ',', 0, i, j);
    }
}

/// The three commas of a four-field value are the only split positions.
proof fn lemma_crop_unique_fields(v: Seq<char>, i1: int, i2: int, i3: int)
    requires
        four_fields(v, i1, i2, i3),
    ensures
        forall|a1: int, a2: int, a3: int|
            #[trigger] four_fields(v, a1, a2, a3) ==> a1 == i1 && a2 == i2 && a3 == i3,
{
    assert forall|a1: int, a2: int, a3: int|
        #[trigger] four_fields(v, a1, a2, a3) implies a1 == i1 && a2 == i2 && a3 == i3 by {
        lemma_first_sep_unique(v, ',', 0, a1, i1);
        lemma_first_sep_unique(v, ',', i1 + 1, a2, i2);
        lemma_first_sep_unique(v, ',', i2 + 1, a3, i3);
    }
}

/// Split at the one comma of a two-field value.
fn split_two<'a>(s: &'a str) -> (r: Option<(&'a str, &'a str)>)
    ensures
        match r {
            Some(parts) => exists|i: int|
                #[trigger] two_fields(s@, i) && parts.0@ == s@.take(i) && parts.1@ == s@.skip(
                    i + 1,
                ),
            None => !(exists|i: int| #[trigger] two_fields(s@, i)),
        },
{
    match split_first(s, ',') {
        None => {
            proof {
                if exists|i: int| #[trigger] two_fields(s@, i) {
                    let i = choose|i: int| #[trigger] two_fields(s@, i);
                    assert(s@[i] != ',');
                }
            }
            None
        },
        Some((a, b)) => {
            let ghost fi = choose|i: int|
                first_sep_from(s@, ',', 0, i) && a@ == s@.take(i) && b@ == s@.skip(i + 1);
            match split_first(b, ',') {
                None => {
                    proof {
                        assert forall|j: int| fi + 1 <= j < s@.len() implies s@[j] != ',' by {
                            assert(b@[j - fi - 1] != ',');
                        }
                        assert(two_fields(s@, fi));
                    }
                    Some((a, b))
                },
                Some(_) => {
                    proof {
                        let gi = choose|i: int| #[trigger] first_sep_from(b@, ',', 0, i);
                        assert(s@[fi + 1 + gi] == ',');
                        if exists|i: int| #[trigger] two_fields(s@, i) {
                            let i = choose|i: int| #[trigger] two_fields(s@, i);
                            lemma_first_sep_unique(s@, ',', 0, i, fi);
                            assert(s@[fi + 1 + gi] != ',');
                        }
                    }
                    None
                },
            }
        },
    }
}

/// Turn one `key:value` pair into its action. Succeeds exactly on the shapes
/// `parseable` admits, and the action returned carries the value's own
/// payload; an unknown key is told apart from a malformed value.
#[verifier::rlimit(100)]
pub fn parse_action(k: &str, v: &str) -> (r: Result<Action, ParseError>)
    ensures
        r is Ok <==> parseable(k@, v@),
        (r matches Ok(a) ==> parses_to(k@, v@, a)),
        r == Err::<Action, ParseError>(ParseError::UnknownAction) <==> !known_key(k@),
{
    proof {
        reveal_strlit("contrast");
        reveal_strlit("brightness");
        reveal_strlit("blur");
        reveal_strlit("crop");
        reveal_strlit("rotate");
        reveal_strlit("flip");
        reveal_strlit("unsharpen");
        reveal_strlit("resize");
        reveal_strlit("append");
        reveal_strlit("format");
        reveal_strlit("down");
        reveal_strlit("left");
        reveal_strlit("right");
        reveal_strlit("up");
        reveal_strlit("under");
        reveal_strlit("over");
        reveal_strlit("v");
        reveal_strlit("h");
        reveal_strlit("png");
        reveal_strlit("gif");
        reveal_strlit("bmp");
        reveal_strlit("ico");
    }
    if str_eq(k, "contrast") {
        if check_decimal(v) {
            Ok(Action::Contrast(v.to_owned()))
        } else {
            Err(ParseError::BadValue)
        }
    } else if str_eq(k, "blur") {
        if check_decimal(v) {
            Ok(Action::Blur(v.to_owned()))
        } else {
            Err(ParseError::BadValue)
        }
    } else if str_eq(k, "brightness") {
        match parse_i32(v) {
            Some(n) => Ok(Action::Brightness(n)),
            None => Err(ParseError::BadValue),
        }
    } else if str_eq(k, "crop") {
        let (f1, rest1) = match split_first(v, ',') {
            Some(p) => p,
            None => {
                proof {
                    if exists|a1: int, a2: int, a3: int| #[trigger] four_fields(v@, a1, a2, a3) {
                        let (a1, a2, a3) = choose|a1: int, a2: int, a3: int|
                            #[trigger] four_fields(v@, a1, a2, a3);
                        assert(v@[a1] != ',');
                    }
                }
                return Err(ParseError::BadValue);
            },
        };
        let ghost i1 = choose|i: int|
            first_sep_from(v@, ',', 0, i) && f1@ == v@.take(i) && rest1@ == v@.skip(i + 1);
        let (f2, rest2) = match split_first(rest1, ',') {
            Some(p) => p,
            None => {
                proof {
                    if exists|a1: int, a2: int, a3: int| #[trigger] four_fields(v@, a1, a2, a3) {
                        let (a1, a2, a3) = choose|a1: int, a2: int, a3: int|
                            #[trigger] four_fields(v@, a1, a2, a3);
                        lemma_first_sep_unique(v@, ',', 0, a1, i1);
                        assert(rest1@[a2 - i1 - 1] == ',');
                        assert(rest1@[a2 - i1 - 1] != ',');
                    }
                }
                return Err(ParseError::BadValue);
            },
        };
        let ghost j2 = choose|i: int|
            first_sep_from(rest1@, ',', 0, i) && f2@ == rest1@.take(i) && rest2@ == rest1@.skip(
                i + 1,
            );
        let ghost i2 = i1 + 1 + j2;
        proof {
            assert forall|q: int| i1 + 1 <= q < i2 implies v@[q] != ',' by {
                assert(rest1@[q - i1 - 1] != ',');
            }
            assert(first_sep_from(v@, ',', i1 + 1, i2));
            assert(f2@ =~= v@.subrange(i1 + 1, i2));
            assert(rest2@ =~= v@.skip(i2 + 1));
        }
        let (f3, f4) = match split_first(rest2, ',') {
            Some(p) => p,
            None => {
                proof {
                    if exists|a1: int, a2: int, a3: int| #[trigger] four_fields(v@, a1, a2, a3) {
                        let (a1, a2, a3) = choose|a1: int, a2: int, a3: int|
                            #[trigger] four_fields(v@, a1, a2, a3);
                        lemma_first_sep_unique(v@, ',', 0, a1, i1);
                        lemma_first_sep_unique(v@, ',', i1 + 1, a2, i2);
                        assert(rest2@[a3 - i2 - 1] == ',');
                        assert(rest2@[a3 - i2 - 1] != ',');
                    }
                }
                return Err(ParseError::BadValue);
            },
        };
        let ghost j3 = choose|i: int|
            first_sep_from(rest2@, ',', 0, i) && f3@ == rest2@.take(i) && f4@ == rest2@.skip(
                i + 1,
            );
        let ghost i3 = i2 + 1 + j3;
        proof {
            assert forall|q: int| i2 + 1 <= q < i3 implies v@[q] != ',' by {
                assert(rest2@[q - i2 - 1] != ',');
            }
            assert(first_sep_from(v@, ',', i2 + 1, i3));
            assert(f3@ =~= v@.subrange(i2 + 1, i3));
            assert(f4@ =~= v@.skip(i3 + 1));
        }
        match split_first(f4, ',') {
            Some(_) => {
                proof {
                    let g = choose|i: int| #[trigger] first_sep_from(f4@, ',', 0, i);
                    assert(v@[i3 + 1 + g] == ',');
                    if exists|a1: int, a2: int, a3: int| #[trigger] four_fields(v@, a1, a2, a3) {
                        let (a1, a2, a3) = choose|a1: int, a2: int, a3: int|
                            #[trigger] four_fields(v@, a1, a2, a3);
                        lemma_first_sep_unique(v@, ',', 0, a1, i1);
                        lemma_first_sep_unique(v@, ',', i1 + 1, a2, i2);
                        lemma_first_sep_unique(v@, ',', i2 + 1, a3, i3);
                        assert(v@[i3 + 1 + g] != ',');
                    }
                }
                return Err(ParseError::BadValue);
            },
            None => {},
        }
        proof {
            assert forall|q: int| i3 + 1 <= q < v@.len() implies v@[q] != ',' by {
                assert(f4@[q - i3 - 1] != ',');
            }
            assert(four_fields(v@, i1, i2, i3));
        }
        let x = match parse_u32(f1) {
            Some(n) => n,
            None => {
                proof {
                    lemma_crop_unique_fields(v@, i1, i2, i3);
                }
                return Err(ParseError::BadValue);
            },
        };
        let y = match parse_u32(f2) {
            Some(n) => n,
            None => {
                proof {
                    lemma_crop_unique_fields(v@, i1, i2, i3);
                }
                return Err(ParseError::BadValue);
            },
        };
        let cw = match parse_u32(f3) {
            Some(n) => n,
            None => {
                proof {
                    lemma_crop_unique_fields(v@, i1, i2, i3);
                }
                return Err(ParseError::BadValue);
            },
        };
        let ch = match parse_u32(f4) {
            Some(n) => n,
            None => {
                proof {
                    lemma_crop_unique_fields(v@, i1, i2, i3);
                }
                return Err(ParseError::BadValue);
            },
        };
        Ok(Action::Crop(x, y, cw, ch))
    } else if str_eq(k, "rotate") {
        if str_eq(v, "down") {
            Ok(Action::Rotate(Direction::Down))
        } else if str_eq(v, "left") {
            Ok(Action::Rotate(Direction::Left))
        } else if str_eq(v, "right") {
            Ok(Action::Rotate(Direction::Right))
        } else {
            Err(ParseError::BadValue)
        }
    } else if str_eq(k, "flip") {
        if str_eq(v, "v") {
            Ok(Action::Flip(Orientation::Vertical))
        } else if str_eq(v, "h") {
            Ok(Action::Flip(Orientation::Horizontal))
        } else {
            Err(ParseError::BadValue)
        }
    } else if str_eq(k, "unsharpen") {
        let (f1, f2) = match split_two(v) {
            Some(p) => p,
            None => {
                return Err(ParseError::BadValue);
            },
        };
        let ghost i = choose|i: int|
            two_fields(v@, i) && f1@ == v@.take(i) && f2@ == v@.skip(i + 1);
        if !check_decimal(f1) {
            proof {
                lemma_two_unique(v@, i);
            }
            return Err(ParseError::BadValue);
        }
        match parse_i32(f2) {
            Some(t) => Ok(Action::Unsharpen(f1.to_owned(), t)),
            None => {
                proof {
                    lemma_two_unique(v@, i);
                }
                Err(ParseError::BadValue)
            },
        }
    } else if str_eq(k, "resize") {
        let (f1, f2) = match split_two(v) {
            Some(p) => p,
            None => {
                return Err(ParseError::BadValue);
            },
        };
        let ghost i = choose|i: int|
            two_fields(v@, i) && f1@ == v@.take(i) && f2@ == v@.skip(i + 1);
        let w = match parse_u32(f1) {
            Some(n) => n,
            None => {
                proof {
                    lemma_two_unique(v@, i);
                }
                return Err(ParseError::BadValue);
            },
        };
        let h = match parse_u32(f2) {
            Some(n) => n,
            None => {
                proof {
                    lemma_two_unique(v@, i);
                }
                return Err(ParseError::BadValue);
            },
        };
        Ok(Action::Scale(w, h))
    } else if str_eq(k, "append") {
        let (f1, f2) = match split_two(v) {
            Some(p) => p,
            None => {
                return Err(ParseError::BadValue);
            },
        };
        let ghost i = choose|i: int|
            two_fields(v@, i) && f1@ == v@.take(i) && f2@ == v@.skip(i + 1);
        let dir = if str_eq(f2, "left") {
            Direction::Left
        } else if str_eq(f2, "right") {
            Direction::Right
        } else if str_eq(f2, "down") || str_eq(f2, "under") {
            Direction::Down
        } else if str_eq(f2, "up") || str_eq(f2, "over") {
            Direction::Up
        } else {
            proof {
                lemma_two_unique(v@, i);
            }
            return Err(ParseError::BadValue);
        };
        Ok(Action::Append(f1.to_owned(), dir))
    } else if str_eq(k, "format") {
        match split_two(v) {
            Some((_, f2)) => {
                let ghost i = choose|i: int|
                    two_fields(v@, i) && f2@ == v@.skip(i + 1);
                match parse_u32(f2) {
                    Some(q) => {
                        if q <= 255 {
                            Ok(Action::Format(OutFormat::Jpeg(q as u8)))
                        } else {
                            proof {
                                lemma_two_unique(v@, i);
                            }
                            Err(ParseError::BadValue)
                        }
                    },
                    None => {
                        proof {
                            lemma_two_unique(v@, i);
                        }
                        Err(ParseError::BadValue)
                    },
                }
            },
            None => {
                if str_eq(v, "png") {
                    Ok(Action::Format(OutFormat::Png))
                } else if str_eq(v, "gif") {
                    Ok(Action::Format(OutFormat::Gif))
                } else if str_eq(v, "bmp") {
                    Ok(Action::Format(OutFormat::Bmp))
                } else if str_eq(v, "ico") {
                    Ok(Action::Format(OutFormat::Ico))
                } else {
                    Err(ParseError::BadValue)
                }
            },
        }
    } else {
        Err(ParseError::UnknownAction)
    }
}
} // verus!
