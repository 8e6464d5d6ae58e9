//! The background material a user types: a PB2 material number from 0 to 16,
//! or a custom value that starts with `c`.

use vstd::prelude::*;
use vstd::string::*;
use crate::text::{
    decimal, decimal_string, digit_char, lemma_trim_bounds, lemma_trim_fixed, trim,
    trim_spec,
};

verus! {

/// An ASCII decimal digit.
pub open spec fn is_digit(c: char) -> bool {
    '0' <= c && c <= '9'
}

/// The value of a decimal digit character.
pub open spec fn digit_value(c: char) -> nat {
    (c as int - '0' as int) as nat
}

/// The value of a string of decimal digits, most significant first.
pub open spec fn digits_value(s: Seq<char>) -> nat
    decreases s.len(),
{
    if s.len() == 0 {
        0
    } else {
        digits_value(s.drop_last()) * 10 + digit_value(s.last())
    }
}

/// Every character of `s` is a decimal digit.
pub open spec fn all_digits(s: Seq<char>) -> bool {
    forall|i: int| 0 <= i < s.len() ==> is_digit(#[trigger] s[i])
}

/// What `str::parse::<u8>` accepts: an optional `+`, then at least one
/// decimal digit, with a value of at most 255.
pub open spec fn parse_u8_spec(s: Seq<char>) -> Option<u8> {
    let digits = if s.len() > 0 && s[0] == '+' {
        s.drop_first()
    } else {
        s
    };
    if digits.len() > 0 && all_digits(digits) && digits_value(digits) <= 255 {
        Some(digits_value(digits) as u8)
    } else {
        None
    }
}

proof fn lemma_digits_value_step(s: Seq<char>, i: int)
    requires
        0 <= i < s.len(),
    ensures
        digits_value(s.take(i + 1)) == digits_value(s.take(i)) * 10 + digit_value(s[i]),
{
    assert(s.take(i + 1).drop_last() =~= s.take(i));
}

/// Parses an unsigned byte the way `str::parse::<u8>` does.
pub fn parse_u8(s: &str) -> (res: Option<u8>)
    ensures
        res == parse_u8_spec(s@),
{
    let len = s.unicode_len();
    let start: usize = if len > 0 && s.get_char(0) == '+' {
        1
    } else {
        0
    };
    let ghost digits = if s@.len() > 0 && s@[0] == '+' {
        s@.drop_first()
    } else {
        s@
    };
    assert(digits =~= s@.subrange(start as int, len as int));
    if start == len {
        return None;
    }
    // `acc` is the value read so far, or 256 once it exceeds a byte.
    let mut acc: u32 = 0;
    let mut i: usize = start;
    while i < len
        invariant
            len == s@.len(),
            start <= i <= len,
            digits =~= s@.subrange(start as int, len as int),
            digits == (if s@.len() > 0 && s@[0] == '+' {
                s@.drop_first()
            } else {
                s@
            }),
            all_digits(digits.take(i - start)),
            acc <= 256,
            acc == if digits_value(digits.take(i - start)) <= 255 {
                digits_value(digits.take(i - start))
            } else {
                256
            },
        decreases len - i,
    {
        let c = s.get_char(i);
        if c < '0' || c > '9' {
            assert(!is_digit(digits[i - start]));
            assert(!all_digits(digits));
            return None;
        }
        let d: u32 = (c as u32) - ('0' as u32);
        proof {
            lemma_digits_value_step(digits, i - start);
            assert(digits[i - start] == c);
            assert forall|j: int| 0 <= j < i + 1 - start implies is_digit(
                #[trigger] digits.take(i + 1 - start)[j],
            ) by {
                if j < i - start {
                    assert(digits.take(i + 1 - start)[j] == digits.take(i - start)[j]);
                }
            }
        }
        if acc == 256 || acc * 10 + d > 255 {
            acc = 256;
        } else {
            acc = acc * 10 + d;
        }
        i = i + 1;
    }
    assert(digits.take(len - start) =~= digits);
    if acc <= 255 {
        Some(acc as u8)
    } else {
        None
    }
}

/// The message for a background that is neither a number nor a custom value.
pub open spec fn not_a_material_message() -> Seq<char> {
    "Background must be a material number or custom value starting with c."@
}

/// The message for a material number above 16.
pub open spec fn material_range_message() -> Seq<char> {
    "Background material must be between 0 and 16."@
}

/// The material value written into the XML for what the user typed: the
/// trimmed text when it is `c` followed by at least one character, else the
/// canonical decimal of a number from 0 to 16.
pub open spec fn parse_material_spec(value: Seq<char>) -> Result<Seq<char>, Seq<char>> {
    let v = trim_spec(value);
    if v.len() > 1 && v[0] == 'c' {
        Ok(v)
    } else {
        match parse_u8_spec(v) {
            None => Err(not_a_material_message()),
            Some(m) => if m > 16 {
                Err(material_range_message())
            } else {
                Ok(decimal(m as nat))
            },
        }
    }
}

/// Checks the background field: a custom value starting with `c`, or a
/// material number from 0 to 16 (returned in canonical form).
pub fn parse_material(value: &str) -> (res: Result<String, String>)
    ensures
        match (res, parse_material_spec(value@)) {
            (Ok(m), Ok(n)) => m@ == n,
            (Err(e), Err(f)) => e@ == f,
            _ => false,
        },
{
    let v = trim(value);
    if v.unicode_len() > 1 && v.get_char(0) == 'c' {
        return Ok(v.to_owned());
    }
    match parse_u8(v) {
        None => Err(
            String::from_str("Background must be a material number or custom value starting with c."),
        ),
        Some(m) => {
            if m > 16 {
                Err(String::from_str("Background material must be between 0 and 16."))
            } else {
                Ok(decimal_string(m as u64))
            }
        },
    }
}

/// Character-wise string equality.
pub fn str_equal(a: &str, b: &str) -> (res: bool)
    ensures
        res == (a@ == b@),
{
    let n = a.unicode_len();
    if n != b.unicode_len() {
        return false;
    }
    for i in 0..n
        invariant
            n == a@.len(),
            n == b@.len(),
            forall|j: int| 0 <= j < i ==> a@[j] == b@[j],
    {
        if a.get_char(i) != b.get_char(i) {
            return false;
        }
    }
    assert(a@ =~= b@);
    true
}

/// The name of the material that a background value selects.
pub open spec fn material_name_spec(value: Seq<char>) -> Seq<char> {
    let v = trim_spec(value);
    if v == "0"@ {
        "basic"@
    } else if v == "1"@ {
        "ground"@
    } else if v == "2"@ {
        "usurpation"@
    } else if v == "3"@ {
        "white"@
    } else if v == "4"@ {
        "elevator path"@
    } else if v == "5"@ {
        "impure canal"@
    } else if v == "6"@ {
        "red"@
    } else if v == "7"@ {
        "green"@
    } else if v == "8"@ {
        "blue"@
    } else if v == "9"@ {
        "damned"@
    } else if v == "10"@ {
        "panel default"@
    } else if v == "11"@ {
        "panel bright"@
    } else if v == "12"@ {
        "panel dark"@
    } else if v == "13"@ {
        "rocks"@
    } else if v == "14"@ {
        "pixel wall"@
    } else if v == "15"@ {
        "pixel background"@
    } else if v == "16"@ {
        "pixel open door"@
    } else if v.len() > 0 && v[0] == 'c' {
        "custom background"@
    } else {
        "invalid material"@
    }
}

/// The name of the material that a background value selects, for display.
pub fn material_name(value: &str) -> (res: &'static str)
    ensures
        res@ == material_name_spec(value@),
{
    let v = trim(value);
    if str_equal(v, "0") {
        "basic"
    } else if str_equal(v, "1") {
        "ground"
    } else if str_equal(v, "2") {
        "usurpation"
    } else if str_equal(v, "3") {
        "white"
    } else if str_equal(v, "4") {
        "elevator path"
    } else if str_equal(v, "5") {
        "impure canal"
    } else if str_equal(v, "6") {
        "red"
    } else if str_equal(v, "7") {
        "green"
    } else if str_equal(v, "8") {
        "blue"
    } else if str_equal(v, "9") {
        "damned"
    } else if str_equal(v, "10") {
        "panel default"
    } else if str_equal(v, "11") {
        "panel bright"
    } else if str_equal(v, "12") {
        "panel dark"
    } else if str_equal(v, "13") {
        "rocks"
    } else if str_equal(v, "14") {
        "pixel wall"
    } else if str_equal(v, "15") {
        "pixel background"
    } else if str_equal(v, "16") {
        "pixel open door"
    } else if v.unicode_len() > 0 && v.get_char(0) == 'c' {
        "custom background"
    } else {
        "invalid material"
    }
}

proof fn lemma_digit_char(d: nat)
    requires
        d < 10,
    ensures
        is_digit(digit_char(d)),
        digit_value(digit_char(d)) == d,
{
}

proof fn lemma_decimal_digits(n: nat)
    ensures
        decimal(n).len() > 0,
        all_digits(decimal(n)),
        digits_value(decimal(n)) == n,
    decreases n,
{
    lemma_digit_char(n % 10);
    if n >= 10 {
        lemma_decimal_digits(n / 10);
        let d = decimal(n);
        assert(d.drop_last() =~= decimal(n / 10));
        assert forall|i: int| 0 <= i < d.len() implies is_digit(#[trigger] d[i]) by {
            if i < d.len() - 1 {
                assert(d[i] == decimal(n / 10)[i]);
            }
        }
        assert(d.last() == digit_char(n % 10));
        assert(digits_value(d) == digits_value(decimal(n / 10)) * 10 + digit_value(d.last()));
        assert(digits_value(d) == (n / 10) * 10 + n % 10);
    } else {
        let d = decimal(n);
        assert(d.drop_last() =~= Seq::<char>::empty());
        assert(d.last() == digit_char(n));
        assert(digits_value(d) == digits_value(d.drop_last()) * 10 + digit_value(d.last()));
    }
}

/// A byte's canonical decimal parses back as that byte, and has no
/// whitespace to trim.
pub proof fn lemma_parse_decimal(k: nat)
    requires
        k <= 255,
    ensures
        parse_u8_spec(decimal(k)) == Some(k as u8),
        trim_spec(decimal(k)) == decimal(k),
{
    lemma_decimal_digits(k);
    let d = decimal(k);
    assert(is_digit(d[0]));
    assert(is_digit(d.last()));
    lemma_trim_fixed(d);
}

proof fn lemma_small_material_name(k: nat)
    requires
        k <= 16,
    ensures
        material_name_spec(decimal(k)) != "invalid material"@,
{
    material_names_follow_the_table(k);
    reveal_strlit("invalid material");
    reveal_strlit("basic");
    reveal_strlit("ground");
    reveal_strlit("usurpation");
    reveal_strlit("white");
    reveal_strlit("elevator path");
    reveal_strlit("impure canal");
    reveal_strlit("red");
    reveal_strlit("green");
    reveal_strlit("blue");
    reveal_strlit("damned");
    reveal_strlit("panel default");
    reveal_strlit("panel bright");
    reveal_strlit("panel dark");
    reveal_strlit("rocks");
    reveal_strlit("pixel wall");
    reveal_strlit("pixel background");
    reveal_strlit("pixel open door");
    let t = material_table()[k as int];
    assert(t.len() != 16 || t[0] != 'i');
}

/// A material value that parses is canonical: parsing it again gives it back
/// unchanged.
pub proof fn parse_material_is_canonical(value: Seq<char>)
    ensures
        parse_material_spec(value) matches Ok(m) ==> parse_material_spec(m) == Ok::<
            Seq<char>,
            Seq<char>,
        >(m),
{
    let v = trim_spec(value);
    lemma_trim_bounds(value);
    lemma_trim_fixed(v);
    if !(v.len() > 1 && v[0] == 'c') {
        if let Some(m) = parse_u8_spec(v) {
            if m <= 16 {
                lemma_parse_decimal(m as nat);
                lemma_decimal_digits(m as nat);
                assert(decimal(m as nat)[0] != 'c');
            }
        }
    }
}

/// A material value that parses always names a material: never the
/// "invalid material" of an unusable value.
pub proof fn parsed_material_has_name(value: Seq<char>)
    ensures
        parse_material_spec(value) matches Ok(m) ==> material_name_spec(m) != "invalid material"@,
{
    let v = trim_spec(value);
    lemma_trim_bounds(value);
    lemma_trim_fixed(v);
    reveal_strlit("invalid material");
    reveal_strlit("custom background");
    if v.len() > 1 && v[0] == 'c' {
        reveal_strlit("0");
        reveal_strlit("1");
        reveal_strlit("2");
        reveal_strlit("3");
        reveal_strlit("4");
        reveal_strlit("5");
        reveal_strlit("6");
        reveal_strlit("7");
        reveal_strlit("8");
        reveal_strlit("9");
        reveal_strlit("10");
        reveal_strlit("11");
        reveal_strlit("12");
        reveal_strlit("13");
        reveal_strlit("14");
        reveal_strlit("15");
        reveal_strlit("16");
        assert(material_name_spec(v) == "custom background"@);
    } else if let Some(m) = parse_u8_spec(v) {
        if m <= 16 {
            lemma_small_material_name(m as nat);
        }
    }
}

/// The PB2 material names, by material number.
pub open spec fn material_table() -> Seq<Seq<char>> {
    seq![
        "basic"@,
        "ground"@,
        "usurpation"@,
        "white"@,
        "elevator path"@,
        "impure canal"@,
        "red"@,
        "green"@,
        "blue"@,
        "damned"@,
        "panel default"@,
        "panel bright"@,
        "panel dark"@,
        "rocks"@,
        "pixel wall"@,
        "pixel background"@,
        "pixel open door"@,
    ]
}

/// Each material number from 0 to 16 is named by its entry in the material
/// table: 0 basic, 1 ground, ..., 7 green, 8 blue, ..., 16 pixel open door.
pub proof fn material_names_follow_the_table(k: nat)
    requires
        k <= 16,
    ensures
        material_name_spec(decimal(k)) == material_table()[k as int],
{
    reveal_strlit("0");
    reveal_strlit("1");
    reveal_strlit("2");
    reveal_strlit("3");
    reveal_strlit("4");
    reveal_strlit("5");
    reveal_strlit("6");
    reveal_strlit("7");
    reveal_strlit("8");
    reveal_strlit("9");
    reveal_strlit("10");
    reveal_strlit("11");
    reveal_strlit("12");
    reveal_strlit("13");
    reveal_strlit("14");
    reveal_strlit("15");
    reveal_strlit("16");
    lemma_parse_decimal(k);
    reveal_with_fuel(decimal, 2);
    if k == 0 {
        reveal_strlit("basic");
        assert(decimal(0) =~= "0"@);
        assert(material_name_spec(decimal(0)) == "basic"@);
    } else if k == 1 {
        reveal_strlit("ground");
        assert(decimal(1) =~= "1"@);
        assert(material_name_spec(decimal(1)) == "ground"@);
    } else if k == 2 {
        reveal_strlit("usurpation");
        assert(decimal(2) =~= "2"@);
        assert(material_name_spec(decimal(2)) == "usurpation"@);
    } else if k == 3 {
        reveal_strlit("white");
        assert(decimal(3) =~= "3"@);
        assert(material_name_spec(decimal(3)) == "white"@);
    } else if k == 4 {
        reveal_strlit("elevator path");
        assert(decimal(4) =~= "4"@);
        assert(material_name_spec(decimal(4)) == "elevator path"@);
    } else if k == 5 {
        reveal_strlit("impure canal");
        assert(decimal(5) =~= "5"@);
        assert(material_name_spec(decimal(5)) == "impure canal"@);
    } else if k == 6 {
        reveal_strlit("red");
        assert(decimal(6) =~= "6"@);
        assert(material_name_spec(decimal(6)) == "red"@);
    } else if k == 7 {
        reveal_strlit("green");
        assert(decimal(7) =~= "7"@);
        assert(material_name_spec(decimal(7)) == "green"@);
    } else if k == 8 {
        reveal_strlit("blue");
        assert(decimal(8) =~= "8"@);
        assert(material_name_spec(decimal(8)) == "blue"@);
    } else if k == 9 {
        reveal_strlit("damned");
        assert(decimal(9) =~= "9"@);
        assert(material_name_spec(decimal(9)) == "damned"@);
    } else if k == 10 {
        reveal_strlit("panel default");
        assert(decimal(10) =~= "10"@);
        assert(material_name_spec(decimal(10)) == "panel default"@);
    } else if k == 11 {
        reveal_strlit("panel bright");
        assert(decimal(11) =~= "11"@);
        assert(material_name_spec(decimal(11)) == "panel bright"@);
    } else if k == 12 {
        reveal_strlit("panel dark");
        assert(decimal(12) =~= "12"@);
        assert(material_name_spec(decimal(12)) == "panel dark"@);
    } else if k == 13 {
        reveal_strlit("rocks");
        assert(decimal(13) =~= "13"@);
        assert(material_name_spec(decimal(13)) == "rocks"@);
    } else if k == 14 {
        reveal_strlit("pixel wall");
        assert(decimal(14) =~= "14"@);
        assert(material_name_spec(decimal(14)) == "pixel wall"@);
    } else if k == 15 {
        reveal_strlit("pixel background");
        assert(decimal(15) =~= "15"@);
        assert(material_name_spec(decimal(15)) == "pixel background"@);
    } else if k == 16 {
        reveal_strlit("pixel open door");
        assert(decimal(16) =~= "16"@);
        assert(material_name_spec(decimal(16)) == "pixel open door"@);
    }
}

/// Which material numbers are accepted: 0 to 16 in any decimal form that
/// reads as a byte give their canonical decimal, 17 to 255 are refused as out
/// of range; a trimmed value of `c` and at least one more character is kept
/// as a custom value, and a lone `c` is refused.
pub proof fn material_numbers_accepted(k: nat, value: Seq<char>)
    requires
        k <= 255,
    ensures
        k <= 16 ==> parse_material_spec(decimal(k)) == Ok::<Seq<char>, Seq<char>>(decimal(k)),
        k > 16 ==> parse_material_spec(decimal(k)) == Err::<Seq<char>, Seq<char>>(
            "Background material must be between 0 and 16."@,
        ),
        ({
            let t = trim_spec(value);
            t.len() > 1 && t[0] == 'c' ==> parse_material_spec(value) == Ok::<Seq<char>, Seq<char>>(
                t,
            )
        }),
        trim_spec(value) == seq!['c'] ==> parse_material_spec(value) == Err::<Seq<char>, Seq<char>>(
            "Background must be a material number or custom value starting with c."@,
        ),
{
    lemma_parse_decimal(k);
    lemma_decimal_digits(k);
    assert(decimal(k)[0] != 'c');
    if trim_spec(value) == seq!['c'] {
        let t = trim_spec(value);
        assert(!is_digit(t[0]));
        assert(parse_u8_spec(t) is None);
    }
}

/// A value that, trimmed, starts with `c` names a custom background.
pub proof fn custom_values_name_custom(value: Seq<char>)
    requires
        trim_spec(value).len() > 0,
        trim_spec(value)[0] == 'c',
    ensures
        material_name_spec(value) == "custom background"@,
{
    reveal_strlit("0");
    reveal_strlit("1");
    reveal_strlit("2");
    reveal_strlit("3");
    reveal_strlit("4");
    reveal_strlit("5");
    reveal_strlit("6");
    reveal_strlit("7");
    reveal_strlit("8");
    reveal_strlit("9");
    reveal_strlit("10");
    reveal_strlit("11");
    reveal_strlit("12");
    reveal_strlit("13");
    reveal_strlit("14");
    reveal_strlit("15");
    reveal_strlit("16");
}

} // verus!
