//! Text helpers: Unicode whitespace trimming, XML attribute escaping and
//! decimal / hexadecimal rendering of integers.

use vstd::prelude::*;
use vstd::string::*;

verus! {

/// Unicode `White_Space` property, the set of characters that
/// `char::is_whitespace` accepts.
pub open spec fn is_white_space(c: char) -> bool {
    ||| ('\u{9}' <= c && c <= '\u{d}')
    ||| c == ' '
    ||| c == '\u{85}'
    ||| c == '\u{a0}'
    ||| c == '\u{1680}'
    ||| ('\u{2000}' <= c && c <= '\u{200a}')
    ||| c == '\u{2028}'
    ||| c == '\u{2029}'
    ||| c == '\u{202f}'
    ||| c == '\u{205f}'
    ||| c == '\u{3000}'
}

/// Executable test for `is_white_space`.
pub fn is_white_space_char(c: char) -> (res: bool)
    ensures
        res == is_white_space(c),
{
    ('\u{9}' <= c && c <= '\u{d}') || c == ' ' || c == '\u{85}' || c == '\u{a0}' || c == '\u{1680}'
        || ('\u{2000}' <= c && c <= '\u{200a}') || c == '\u{2028}' || c == '\u{2029}' || c
        == '\u{202f}' || c == '\u{205f}' || c == '\u{3000}'
}

/// `s` without its leading whitespace.
pub open spec fn trim_start_spec(s: Seq<char>) -> Seq<char>
    decreases s.len(),
{
    if s.len() > 0 && is_white_space(s[0]) {
        trim_start_spec(s.drop_first())
    } else {
        s
    }
}

/// `s` without its trailing whitespace.
pub open spec fn trim_end_spec(s: Seq<char>) -> Seq<char>
    decreases s.len(),
{
    if s.len() > 0 && is_white_space(s.last()) {
        trim_end_spec(s.drop_last())
    } else {
        s
    }
}

/// `s` without leading and trailing whitespace, as `str::trim` returns it.
pub open spec fn trim_spec(s: Seq<char>) -> Seq<char> {
    trim_end_spec(trim_start_spec(s))
}

proof fn lemma_trim_start_skip(s: Seq<char>, i: int)
    requires
        0 <= i <= s.len(),
        forall|j: int| 0 <= j < i ==> is_white_space(#[trigger] s[j]),
    ensures
        trim_start_spec(s) == trim_start_spec(s.subrange(i, s.len() as int)),
    decreases i,
{
    if i > 0 {
        assert(s.drop_first().subrange(i - 1, s.drop_first().len() as int) =~= s.subrange(
            i,
            s.len() as int,
        ));
        assert forall|j: int| 0 <= j < i - 1 implies is_white_space(
            #[trigger] s.drop_first()[j],
        ) by {
            assert(s.drop_first()[j] == s[j + 1]);
        }
        lemma_trim_start_skip(s.drop_first(), i - 1);
    } else {
        assert(s.subrange(0, s.len() as int) =~= s);
    }
}

proof fn lemma_trim_end_take(s: Seq<char>, k: int)
    requires
        0 <= k <= s.len(),
        forall|j: int| k <= j < s.len() ==> is_white_space(#[trigger] s[j]),
    ensures
        trim_end_spec(s) == trim_end_spec(s.subrange(0, k)),
    decreases s.len() - k,
{
    if k < s.len() {
        assert(s.drop_last().subrange(0, k) =~= s.subrange(0, k));
        assert forall|j: int| k <= j < s.drop_last().len() implies is_white_space(
            #[trigger] s.drop_last()[j],
        ) by {
            assert(s.drop_last()[j] == s[j]);
        }
        lemma_trim_end_take(s.drop_last(), k);
    } else {
        assert(s.subrange(0, k) =~= s);
    }
}

/// Trimmed text neither starts nor ends with whitespace.
pub proof fn lemma_trim_bounds(s: Seq<char>)
    ensures
        trim_spec(s).len() > 0 ==> !is_white_space(trim_spec(s)[0]) && !is_white_space(
            trim_spec(s).last(),
        ),
{
    lemma_trim_start_front(s);
    lemma_trim_end_prefix(trim_start_spec(s));
}

proof fn lemma_trim_start_front(s: Seq<char>)
    ensures
        trim_start_spec(s).len() > 0 ==> !is_white_space(trim_start_spec(s)[0]),
    decreases s.len(),
{
    if s.len() > 0 && is_white_space(s[0]) {
        lemma_trim_start_front(s.drop_first());
    }
}

proof fn lemma_trim_end_prefix(u: Seq<char>)
    ensures
        trim_end_spec(u).len() <= u.len(),
        trim_end_spec(u) =~= u.take(trim_end_spec(u).len() as int),
        trim_end_spec(u).len() > 0 ==> !is_white_space(trim_end_spec(u).last()),
    decreases u.len(),
{
    if u.len() > 0 && is_white_space(u.last()) {
        lemma_trim_end_prefix(u.drop_last());
        assert(u.drop_last().take(trim_end_spec(u).len() as int) =~= u.take(
            trim_end_spec(u).len() as int,
        ));
    } else {
        assert(u.take(u.len() as int) =~= u);
    }
}

/// Text that neither starts nor ends with whitespace is its own trim.
pub proof fn lemma_trim_fixed(s: Seq<char>)
    requires
        s.len() > 0 ==> !is_white_space(s[0]) && !is_white_space(s.last()),
    ensures
        trim_spec(s) == s,
{
}

/// Trimming twice is trimming once.
pub proof fn lemma_trim_idempotent(s: Seq<char>)
    ensures
        trim_spec(trim_spec(s)) == trim_spec(s),
{
    lemma_trim_bounds(s);
    lemma_trim_fixed(trim_spec(s));
}

/// Removes leading and trailing whitespace.
pub fn trim(s: &str) -> (res: &str)
    ensures
        res@ == trim_spec(s@),
{
    let len = s.unicode_len();
    let mut start: usize = 0;
    while start < len && is_white_space_char(s.get_char(start))
        invariant
            len == s@.len(),
            start <= len,
            forall|j: int| 0 <= j < start ==> is_white_space(#[trigger] s@[j]),
        decreases len - start,
    {
        start = start + 1;
    }
    let mut end: usize = len;
    while end > start && is_white_space_char(s.get_char(end - 1))
        invariant
            len == s@.len(),
            start <= end <= len,
            forall|j: int| end <= j < len ==> is_white_space(#[trigger] s@[j]),
        decreases end,
    {
        end = end - 1;
    }
    let res = s.substring_char(start, end);
    proof {
        let tail = s@.subrange(start as int, len as int);
        lemma_trim_start_skip(s@, start as int);
        if start < len {
            assert(tail[0] == s@[start as int]);
            assert(trim_start_spec(tail) == tail);
        } else {
            assert(trim_start_spec(tail) == tail);
        }
        assert forall|j: int| end - start <= j < tail.len() implies is_white_space(
            #[trigger] tail[j],
        ) by {
            assert(tail[j] == s@[start + j]);
        }
        lemma_trim_end_take(tail, end - start);
        assert(tail.subrange(0, end - start) =~= s@.subrange(start as int, end as int));
        let kept = s@.subrange(start as int, end as int);
        if end > start {
            assert(kept.last() == s@[end - 1]);
        }
        assert(trim_end_spec(kept) == kept);
    }
    res
}

/// Appends one character: `String::push`, which adds `c` at the end.
#[verifier::external_body]
pub(crate) fn push_char(s: &mut String, c: char)
    ensures
        final(s)@ == old(s)@.push(c),
{
    s.push(c);
}

/// What one character becomes inside an XML attribute value.
pub open spec fn escape_char(c: char) -> Seq<char> {
    if c == '&' {
        "&amp;"@
    } else if c == '"' {
        "&quot;"@
    } else if c == '<' {
        "&lt;"@
    } else if c == '>' {
        "&gt;"@
    } else {
        seq![c]
    }
}

/// `s` with `&`, `"`, `<` and `>` replaced by their XML entities.
pub open spec fn xml_escape_spec(s: Seq<char>) -> Seq<char>
    decreases s.len(),
{
    if s.len() == 0 {
        Seq::empty()
    } else {
        xml_escape_spec(s.drop_last()) + escape_char(s.last())
    }
}

/// Replaces `&`, `"`, `<` and `>` by their XML entities.
pub fn xml_escape(value: &str) -> (res: String)
    ensures
        res@ == xml_escape_spec(value@),
{
    let len = value.unicode_len();
    let mut res = String::new();
    for i in 0..len
        invariant
            len == value@.len(),
            res@ == xml_escape_spec(value@.take(i as int)),
    {
        let c = value.get_char(i);
        proof {
            assert(value@.take(i + 1).drop_last() =~= value@.take(i as int));
        }
        if c == '&' {
            res.append("&amp;");
        } else if c == '"' {
            res.append("&quot;");
        } else if c == '<' {
            res.append("&lt;");
        } else if c == '>' {
            res.append("&gt;");
        } else {
            push_char(&mut res, c);
        }
    }
    proof {
        assert(value@.take(len as int) =~= value@);
    }
    res
}

/// Nothing that could end an attribute value or open a tag survives escaping:
/// the escaped text holds no `"`, `<` or `>`.
pub proof fn xml_escape_has_no_markup(s: Seq<char>)
    ensures
        forall|i: int|
            0 <= i < xml_escape_spec(s).len() ==> {
                let c = #[trigger] xml_escape_spec(s)[i];
                c != '"' && c != '<' && c != '>'
            },
    decreases s.len(),
{
    if s.len() > 0 {
        xml_escape_has_no_markup(s.drop_last());
        reveal_strlit("&amp;");
        reveal_strlit("&quot;");
        reveal_strlit("&lt;");
        reveal_strlit("&gt;");
        let prefix = xml_escape_spec(s.drop_last());
        let tail = escape_char(s.last());
        assert forall|i: int| 0 <= i < xml_escape_spec(s).len() implies {
            let c = #[trigger] xml_escape_spec(s)[i];
            c != '"' && c != '<' && c != '>'
        } by {
            if i < prefix.len() {
                assert(xml_escape_spec(s)[i] == prefix[i]);
            } else {
                assert(xml_escape_spec(s)[i] == tail[i - prefix.len()]);
            }
        }
    }
}

/// The four entities escaping writes.
pub open spec fn amp_entity() -> Seq<char> {
    seq!['&', 'a', 'm', 'p', ';']
}

/// `&quot;`
pub open spec fn quot_entity() -> Seq<char> {
    seq!['&', 'q', 'u', 'o', 't', ';']
}

/// `&lt;`
pub open spec fn lt_entity() -> Seq<char> {
    seq!['&', 'l', 't', ';']
}

/// `&gt;`
pub open spec fn gt_entity() -> Seq<char> {
    seq!['&', 'g', 't', ';']
}

/// `s` starts with `e`.
pub open spec fn begins_with(s: Seq<char>, e: Seq<char>) -> bool {
    s.len() >= e.len() && s.take(e.len() as int) == e
}

/// `s` starts with one of the four entities.
pub open spec fn begins_with_entity(s: Seq<char>) -> bool {
    begins_with(s, amp_entity()) || begins_with(s, quot_entity()) || begins_with(s, lt_entity())
        || begins_with(s, gt_entity())
}

/// Reading escaped text back: each entity becomes its character, every other
/// character stays.
pub open spec fn xml_unescape_spec(s: Seq<char>) -> Seq<char>
    decreases s.len(),
{
    if s.len() == 0 {
        Seq::empty()
    } else if begins_with(s, amp_entity()) {
        seq!['&'] + xml_unescape_spec(s.skip(5))
    } else if begins_with(s, quot_entity()) {
        seq!['"'] + xml_unescape_spec(s.skip(6))
    } else if begins_with(s, lt_entity()) {
        seq!['<'] + xml_unescape_spec(s.skip(4))
    } else if begins_with(s, gt_entity()) {
        seq!['>'] + xml_unescape_spec(s.skip(4))
    } else {
        seq![s[0]] + xml_unescape_spec(s.drop_first())
    }
}

/// `&`, `"`, `<` or `>`.
pub open spec fn is_markup_char(c: char) -> bool {
    c == '&' || c == '"' || c == '<' || c == '>'
}

proof fn lemma_entity_literals()
    ensures
        "&amp;"@ == amp_entity(),
        "&quot;"@ == quot_entity(),
        "&lt;"@ == lt_entity(),
        "&gt;"@ == gt_entity(),
{
    reveal_strlit("&amp;");
    reveal_strlit("&quot;");
    reveal_strlit("&lt;");
    reveal_strlit("&gt;");
    assert("&amp;"@ =~= amp_entity());
    assert("&quot;"@ =~= quot_entity());
    assert("&lt;"@ =~= lt_entity());
    assert("&gt;"@ =~= gt_entity());
}

/// Escaping read from the front: the first character's escape, then the
/// escape of the rest.
proof fn lemma_escape_front(s: Seq<char>)
    requires
        s.len() > 0,
    ensures
        xml_escape_spec(s) == escape_char(s[0]) + xml_escape_spec(s.drop_first()),
    decreases s.len(),
{
    if s.len() == 1 {
        assert(s.drop_last() =~= Seq::<char>::empty());
        assert(s.drop_first() =~= Seq::<char>::empty());
        assert(xml_escape_spec(s.drop_last()) =~= Seq::<char>::empty());
        assert(s.last() == s[0]);
        assert(Seq::<char>::empty() + escape_char(s[0]) =~= escape_char(s[0]));
        assert(xml_escape_spec(s) =~= escape_char(s[0]));
        assert(escape_char(s[0]) + Seq::<char>::empty() =~= escape_char(s[0]));
    } else {
        lemma_escape_front(s.drop_last());
        assert(s.drop_last().drop_first() =~= s.drop_first().drop_last());
        assert(s.drop_first().last() == s.last());
        assert(s.drop_last()[0] == s[0]);
        assert(xml_escape_spec(s) =~= escape_char(s[0]) + xml_escape_spec(s.drop_first()));
    }
}

proof fn lemma_unescape_char(c: char, t: Seq<char>)
    ensures
        xml_unescape_spec(escape_char(c) + t) == seq![c] + xml_unescape_spec(t),
{
    lemma_entity_literals();
    let u = escape_char(c) + t;
    if c == '&' {
        assert(u.take(5) =~= amp_entity());
        assert(u.skip(5) =~= t);
    } else if c == '"' {
        assert(u[1] == 'q');
        assert(u.take(6) =~= quot_entity());
        assert(u.skip(6) =~= t);
        assert(!begins_with(u, amp_entity()));
    } else if c == '<' {
        assert(u[1] == 'l');
        assert(u.take(4) =~= lt_entity());
        assert(u.skip(4) =~= t);
        assert(!begins_with(u, amp_entity()));
        assert(!begins_with(u, quot_entity()));
    } else if c == '>' {
        assert(u[1] == 'g');
        assert(u.take(4) =~= gt_entity());
        assert(u.skip(4) =~= t);
        assert(!begins_with(u, amp_entity()));
        assert(!begins_with(u, quot_entity()));
        assert(!begins_with(u, lt_entity()));
    } else {
        assert(u[0] == c);
        assert(!begins_with(u, amp_entity()));
        assert(!begins_with(u, quot_entity()));
        assert(!begins_with(u, lt_entity()));
        assert(!begins_with(u, gt_entity()));
        assert(u.drop_first() =~= t);
    }
}

/// Reading escaped text back gives the original text.
pub proof fn xml_escape_round_trip(s: Seq<char>)
    ensures
        xml_unescape_spec(xml_escape_spec(s)) == s,
    decreases s.len(),
{
    if s.len() > 0 {
        lemma_escape_front(s);
        lemma_unescape_char(s[0], xml_escape_spec(s.drop_first()));
        xml_escape_round_trip(s.drop_first());
        assert(seq![s[0]] + s.drop_first() =~= s);
    }
}

/// Every `&` in escaped text starts `&amp;`, `&quot;`, `&lt;` or `&gt;`.
pub proof fn xml_escape_ampersands_start_entities(s: Seq<char>)
    ensures
        forall|i: int|
            0 <= i < xml_escape_spec(s).len() && #[trigger] xml_escape_spec(s)[i] == '&'
                ==> begins_with_entity(xml_escape_spec(s).skip(i)),
    decreases s.len(),
{
    if s.len() > 0 {
        lemma_entity_literals();
        lemma_escape_front(s);
        xml_escape_ampersands_start_entities(s.drop_first());
        let e = escape_char(s[0]);
        let rest = xml_escape_spec(s.drop_first());
        let out = xml_escape_spec(s);
        assert(out == e + rest);
        assert forall|i: int| 0 <= i < out.len() && #[trigger] out[i] == '&' implies begins_with_entity(
            out.skip(i),
        ) by {
            if i < e.len() {
                assert(out[i] == e[i]);
                assert(i == 0);
                assert(out.skip(0) =~= out);
                assert(out.take(e.len() as int) =~= e);
            } else {
                assert(out[i] == rest[i - e.len()]);
                let k = i - e.len();
                assert(out.skip(i) =~= rest.skip(k));
                assert(rest[k] == '&');
            }
        }
    }
}

/// Text without `&`, `"`, `<` or `>` is left as it is.
pub proof fn xml_escape_keeps_plain_text(s: Seq<char>)
    requires
        forall|i: int| 0 <= i < s.len() ==> !is_markup_char(#[trigger] s[i]),
    ensures
        xml_escape_spec(s) == s,
    decreases s.len(),
{
    if s.len() > 0 {
        assert(!is_markup_char(s[s.len() - 1]));
        assert forall|i: int| 0 <= i < s.drop_last().len() implies !is_markup_char(
            #[trigger] s.drop_last()[i],
        ) by {
            assert(s.drop_last()[i] == s[i]);
        }
        xml_escape_keeps_plain_text(s.drop_last());
        assert(s.drop_last().push(s.last()) =~= s);
    }
}

/// The character of a decimal digit `d < 10`.
pub open spec fn digit_char(d: nat) -> char {
    if d == 0 {
        '0'
    } else if d == 1 {
        '1'
    } else if d == 2 {
        '2'
    } else if d == 3 {
        '3'
    } else if d == 4 {
        '4'
    } else if d == 5 {
        '5'
    } else if d == 6 {
        '6'
    } else if d == 7 {
        '7'
    } else if d == 8 {
        '8'
    } else {
        '9'
    }
}

/// The decimal rendering of `n`, most significant digit first, with no
/// leading zero (as `Display` renders an unsigned integer).
pub open spec fn decimal(n: nat) -> Seq<char>
    decreases n,
{
    if n < 10 {
        seq![digit_char(n)]
    } else {
        decimal(n / 10).push(digit_char(n % 10))
    }
}

fn digit(d: u64) -> (c: char)
    requires
        d < 10,
    ensures
        c == digit_char(d as nat),
{
    if d == 0 {
        '0'
    } else if d == 1 {
        '1'
    } else if d == 2 {
        '2'
    } else if d == 3 {
        '3'
    } else if d == 4 {
        '4'
    } else if d == 5 {
        '5'
    } else if d == 6 {
        '6'
    } else if d == 7 {
        '7'
    } else if d == 8 {
        '8'
    } else {
        '9'
    }
}

/// Appends the decimal rendering of `n`.
pub fn push_decimal(s: &mut String, n: u64)
    ensures
        final(s)@ == old(s)@ + decimal(n as nat),
    decreases n,
{
    if n >= 10 {
        push_decimal(s, n / 10);
    }
    push_char(s, digit(n % 10));
    assert(final(s)@ =~= old(s)@ + decimal(n as nat));
}

/// The decimal rendering of `n` as a new string.
pub fn decimal_string(n: u64) -> (res: String)
    ensures
        res@ == decimal(n as nat),
{
    let mut res = String::new();
    push_decimal(&mut res, n);
    assert(res@ =~= decimal(n as nat));
    res
}

/// The upper-case hexadecimal digit for `d < 16`.
pub open spec fn hex_digit(d: nat) -> char {
    if d < 10 {
        digit_char(d)
    } else if d == 10 {
        'A'
    } else if d == 11 {
        'B'
    } else if d == 12 {
        'C'
    } else if d == 13 {
        'D'
    } else if d == 14 {
        'E'
    } else {
        'F'
    }
}

/// A byte as two upper-case hexadecimal digits (`{:02X}`).
pub open spec fn hex_byte(b: u8) -> Seq<char> {
    seq![hex_digit(b as nat / 16), hex_digit(b as nat % 16)]
}

/// The value of an upper-case hexadecimal digit, or -1 for any other
/// character.
pub open spec fn hex_value(c: char) -> int {
    if '0' <= c && c <= '9' {
        c as int - '0' as int
    } else if 'A' <= c && c <= 'F' {
        c as int - 'A' as int + 10
    } else {
        -1
    }
}

/// The value of a decimal digit, or -1 for any other character.
pub open spec fn decimal_value(c: char) -> int {
    if '0' <= c && c <= '9' {
        c as int - '0' as int
    } else {
        -1
    }
}

proof fn lemma_hex_digit(d: nat)
    requires
        d < 16,
    ensures
        hex_value(hex_digit(d)) == d,
{
}

/// The two digits written for a byte read back as that byte.
pub proof fn hex_byte_reads_back(b: u8)
    ensures
        hex_byte(b).len() == 2,
        0 <= hex_value(hex_byte(b)[0]) < 16,
        0 <= hex_value(hex_byte(b)[1]) < 16,
        16 * hex_value(hex_byte(b)[0]) + hex_value(hex_byte(b)[1]) == b,
{
    lemma_hex_digit(b as nat / 16);
    lemma_hex_digit(b as nat % 16);
}

proof fn lemma_digit_value(d: nat)
    requires
        d < 10,
    ensures
        decimal_value(digit_char(d)) == d,
{
}

/// The decimal rendering of a number is a non-empty string of digits, without
/// a leading zero unless it is `0`, that reads back as the number.
pub proof fn decimal_reads_back(n: nat)
    ensures
        decimal(n).len() > 0,
        n < 10 <==> decimal(n).len() == 1,
        forall|i: int| 0 <= i < decimal(n).len() ==> 0 <= #[trigger] decimal_value(decimal(n)[i]),
        decimal(n).len() > 1 ==> decimal(n)[0] != '0',
        decimal_number(decimal(n)) == n,
    decreases n,
{
    lemma_digit_value(n % 10);
    let d = decimal(n);
    if n >= 10 {
        decimal_reads_back(n / 10);
        let p = decimal(n / 10);
        assert(d.drop_last() =~= p);
        assert forall|i: int| 0 <= i < d.len() implies 0 <= #[trigger] decimal_value(d[i]) by {
            if i < d.len() - 1 {
                assert(d[i] == p[i]);
            }
        }
        assert(d[0] == p[0]);
        if p.len() == 1 {
            assert(n / 10 < 10);
            assert(p[0] == digit_char(n / 10));
        }
        assert(decimal_number(d) == decimal_number(p) * 10 + decimal_value(d.last()));
    } else {
        assert(d.drop_last() =~= Seq::<char>::empty());
        assert(decimal_number(d) == decimal_number(d.drop_last()) * 10 + decimal_value(d.last()));
    }
}

/// The number a string of decimal digits denotes.
pub open spec fn decimal_number(s: Seq<char>) -> int
    decreases s.len(),
{
    if s.len() == 0 {
        0
    } else {
        decimal_number(s.drop_last()) * 10 + decimal_value(s.last())
    }
}

fn hex_char(d: u8) -> (c: char)
    requires
        d < 16,
    ensures
        c == hex_digit(d as nat),
{
    if d < 10 {
        digit(d as u64)
    } else if d == 10 {
        'A'
    } else if d == 11 {
        'B'
    } else if d == 12 {
        'C'
    } else if d == 13 {
        'D'
    } else if d == 14 {
        'E'
    } else {
        'F'
    }
}

/// Appends a byte as two upper-case hexadecimal digits.
pub fn push_hex_byte(s: &mut String, b: u8)
    ensures
        final(s)@ == old(s)@ + hex_byte(b),
{
    push_char(s, hex_char(b / 16));
    push_char(s, hex_char(b % 16));
    assert(final(s)@ =~= old(s)@ + hex_byte(b));
}

} // verus!
