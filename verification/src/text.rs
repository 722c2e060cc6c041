//! Reading and writing the short texts that configuration is made of.

use vstd::prelude::*;

verus! {

/// Whether `c` has the Unicode property `White_Space`.
pub open spec fn is_white_space(c: char) -> bool {
    let code = c as u32;
    ||| 0x9 <= code <= 0xd
    ||| code == 0x20
    ||| code == 0x85
    ||| code == 0xa0
    ||| code == 0x1680
    ||| 0x2000 <= code <= 0x200a
    ||| code == 0x2028
    ||| code == 0x2029
    ||| code == 0x202f
    ||| code == 0x205f
    ||| code == 0x3000
}

/// `s` without its leading white space.
pub open spec fn trimmed_start(s: Seq<char>) -> Seq<char>
    decreases s.len(),
{
    if s.len() > 0 && is_white_space(s[0]) {
        trimmed_start(s.drop_first())
    } else {
        s
    }
}

/// `s` without its trailing white space.
pub open spec fn trimmed_end(s: Seq<char>) -> Seq<char>
    decreases s.len(),
{
    if s.len() > 0 && is_white_space(s.last()) {
        trimmed_end(s.drop_last())
    } else {
        s
    }
}

/// `s` without white space at either end.
pub open spec fn trimmed(s: Seq<char>) -> Seq<char> {
    trimmed_end(trimmed_start(s))
}

/// The lower-case form of an ASCII letter; any other character is itself.
pub open spec fn ascii_lower_char(c: char) -> char {
    if 'A' <= c <= 'Z' {
        (c as u32 + 32) as char
    } else {
        c
    }
}

/// `s` with every ASCII letter in lower case.
pub open spec fn ascii_lower(s: Seq<char>) -> Seq<char> {
    s.map_values(|c: char| ascii_lower_char(c))
}

/// The pieces of `s` between commas; there is one more piece than commas.
pub open spec fn comma_pieces(s: Seq<char>) -> Seq<Seq<char>>
    decreases s.len(),
{
    if s.len() == 0 {
        seq![Seq::empty()]
    } else {
        let before = comma_pieces(s.drop_last());
        if s.last() == ',' {
            before.push(Seq::empty())
        } else {
            before.drop_last().push(before.last().push(s.last()))
        }
    }
}

/// The pieces that hold more than white space, each trimmed.
pub open spec fn trimmed_nonempty(pieces: Seq<Seq<char>>) -> Seq<Seq<char>>
    decreases pieces.len(),
{
    if pieces.len() == 0 {
        Seq::empty()
    } else {
        let before = trimmed_nonempty(pieces.drop_last());
        let piece = trimmed(pieces.last());
        if piece.len() == 0 {
            before
        } else {
            before.push(piece)
        }
    }
}

/// The entries of a comma-separated list: trimmed, empty ones dropped.
pub open spec fn list_entries(s: Seq<char>) -> Seq<Seq<char>> {
    trimmed_nonempty(comma_pieces(s))
}

pub open spec fn is_digit(c: char) -> bool {
    '0' <= c <= '9'
}

/// The number that a run of decimal digits stands for.
pub open spec fn digits_value(s: Seq<char>) -> nat
    decreases s.len(),
{
    if s.len() == 0 {
        0
    } else {
        digits_value(s.drop_last()) * 10 + (s.last() as u32 - '0' as u32) as nat
    }
}

/// `s` without one leading plus sign.
pub open spec fn unsigned_part(s: Seq<char>) -> Seq<char> {
    if s.len() > 0 && s[0] == '+' {
        s.drop_first()
    } else {
        s
    }
}

/// What `s` reads as in decimal: one or more digits, after an optional plus
/// sign, whose value fits in 64 bits.
pub open spec fn decimal_u64(s: Seq<char>) -> Option<u64> {
    let digits = unsigned_part(s);
    if digits.len() > 0 && (forall|i: int| 0 <= i < digits.len() ==> is_digit(#[trigger] digits[i]))
        && digits_value(digits) <= u64::MAX {
        Some(digits_value(digits) as u64)
    } else {
        None
    }
}

/// The digit character of `d`, which is below ten.
pub open spec fn digit_char(d: nat) -> char {
    ('0' as u32 + d) as char
}

/// The decimal digits of `n`, most significant first.
pub open spec fn decimal_text(n: nat) -> Seq<char>
    decreases n,
{
    if n < 10 {
        seq![digit_char(n)]
    } else {
        decimal_text(n / 10).push(digit_char(n % 10))
    }
}

/// `String::push`: appends one character.
pub assume_specification[ String::push ](s: &mut String, c: char)
    ensures
        final(s)@ == old(s)@.push(c),
;

pub fn is_white_space_char(c: char) -> (b: bool)
    ensures
        b == is_white_space(c),
{
    let code: u32 = c as u32;
    (0x9 <= code && code <= 0xd) || code == 0x20 || code == 0x85 || code == 0xa0 || code == 0x1680
        || (0x2000 <= code && code <= 0x200a) || code == 0x2028 || code == 0x2029 || code == 0x202f
        || code == 0x205f || code == 0x3000
}

/// The characters of `s`.
pub fn chars_of(s: &str) -> (chars: Vec<char>)
    ensures
        chars@ == s@,
{
    let mut chars: Vec<char> = Vec::new();
    for c in iter: s.chars()
        invariant
            chars@ == iter.seq().take(iter.index()),
            iter.seq() == s@,
    {
        proof {
            assert(iter.seq().take(iter.index() + 1) =~= iter.seq().take(iter.index()).push(c));
        }
        chars.push(c);
    }
    proof {
        assert(s@.take(s@.len() as int) =~= s@);
    }
    chars
}

/// Whether two texts hold the same characters.
pub fn same_text(a: &str, b: &str) -> (same: bool)
    ensures
        same == (a@ == b@),
{
    a.to_owned() == b.to_owned()
}

/// The bounds of `chars[from..to]` once white space at either end is left out.
fn trim_bounds(chars: &Vec<char>, from: usize, to: usize) -> (bounds: (usize, usize))
    requires
        from <= to <= chars@.len(),
    ensures
        from <= bounds.0 <= bounds.1 <= to,
        chars@.subrange(bounds.0 as int, bounds.1 as int) == trimmed(
            chars@.subrange(from as int, to as int),
        ),
{
    let mut start: usize = from;
    while start < to && is_white_space_char(chars[start])
        invariant
            from <= start <= to <= chars@.len(),
            trimmed_start(chars@.subrange(start as int, to as int)) == trimmed_start(
                chars@.subrange(from as int, to as int),
            ),
        decreases to - start,
    {
        proof {
            let rest = chars@.subrange(start as int, to as int);
            assert(rest.drop_first() =~= chars@.subrange(start + 1, to as int));
        }
        start += 1;
    }
    let mut end: usize = to;
    while start < end && is_white_space_char(chars[end - 1])
        invariant
            from <= start <= end <= to <= chars@.len(),
            trimmed_end(chars@.subrange(start as int, end as int)) == trimmed_end(
                chars@.subrange(start as int, to as int),
            ),
        decreases end - start,
    {
        proof {
            let rest = chars@.subrange(start as int, end as int);
            assert(rest.drop_last() =~= chars@.subrange(start as int, end - 1));
        }
        end -= 1;
    }
    (start, end)
}

/// The text without white space at either end.
pub fn trim(s: &str) -> (text: String)
    ensures
        text@ == trimmed(s@),
{
    let chars: Vec<char> = chars_of(s);
    let bounds: (usize, usize) = trim_bounds(&chars, 0, chars.len());
    proof {
        assert(chars@.subrange(0, chars@.len() as int) =~= s@);
    }
    s.substring_char(bounds.0, bounds.1).to_owned()
}

/// The text with every ASCII letter in lower case.
pub fn to_ascii_lower(s: &str) -> (text: String)
    ensures
        text@ == ascii_lower(s@),
{
    let chars: Vec<char> = chars_of(s);
    let mut text: String = String::new();
    let mut i: usize = 0;
    while i < chars.len()
        invariant
            i <= chars@.len(),
            text@ == ascii_lower(chars@.take(i as int)),
        decreases chars@.len() - i,
    {
        let c: char = chars[i];
        let lower: char = if 'A' <= c && c <= 'Z' {
            ((c as u8) + 32) as char
        } else {
            c
        };
        text.push(lower);
        proof {
            assert(chars@.take(i + 1) =~= chars@.take(i as int).push(c));
            assert(ascii_lower(chars@.take(i + 1)) =~= ascii_lower(chars@.take(i as int)).push(
                lower,
            ));
        }
        i += 1;
    }
    proof {
        assert(chars@.take(i as int) =~= s@);
    }
    text
}

/// The entries of a comma-separated list: trimmed, empty ones dropped.
pub fn split_list(s: &str) -> (entries: Vec<String>)
    ensures
        entries@.map_values(|e: String| e@) == list_entries(s@),
{
    let chars: Vec<char> = chars_of(s);
    let n: usize = chars.len();
    let mut entries: Vec<String> = Vec::new();
    let mut start: usize = 0;
    let mut i: usize = 0;
    while i < n
        invariant
            n == chars@.len(),
            chars@ == s@,
            start <= i <= n,
            comma_pieces(s@.take(i as int)).len() > 0,
            comma_pieces(s@.take(i as int)).last() == s@.subrange(start as int, i as int),
            entries@.map_values(|e: String| e@) == trimmed_nonempty(
                comma_pieces(s@.take(i as int)).drop_last(),
            ),
        decreases n - i,
    {
        proof {
            assert(s@.take(i + 1).drop_last() =~= s@.take(i as int));
        }
        if chars[i] == ',' {
            push_entry(&mut entries, s, &chars, start, i);
            proof {
                let pieces = comma_pieces(s@.take(i as int));
                assert(comma_pieces(s@.take(i + 1)).drop_last() =~= pieces);
            }
            start = i + 1;
        } else {
            proof {
                assert(comma_pieces(s@.take(i + 1)).drop_last() =~= comma_pieces(
                    s@.take(i as int),
                ).drop_last());
                assert(s@.subrange(start as int, i + 1) =~= s@.subrange(
                    start as int,
                    i as int,
                ).push(s@[i as int]));
            }
        }
        i += 1;
    }
    push_entry(&mut entries, s, &chars, start, n);
    proof {
        assert(s@.take(n as int) =~= s@);
    }
    entries
}

/// Appends `chars[from..to]`, trimmed, unless nothing is left of it.
fn push_entry(entries: &mut Vec<String>, s: &str, chars: &Vec<char>, from: usize, to: usize)
    requires
        chars@ == s@,
        from <= to <= chars@.len(),
    ensures
        ({
            let piece = trimmed(s@.subrange(from as int, to as int));
            let before = old(entries)@.map_values(|e: String| e@);
            final(entries)@.map_values(|e: String| e@) == (if piece.len() == 0 {
                before
            } else {
                before.push(piece)
            })
        }),
{
    let bounds: (usize, usize) = trim_bounds(chars, from, to);
    if bounds.0 < bounds.1 {
        let entry: String = s.substring_char(bounds.0, bounds.1).to_owned();
        let ghost before = entries@;
        entries.push(entry);
        proof {
            assert(entries@.map_values(|e: String| e@) =~= before.map_values(
                |e: String| e@,
            ).push(entry@));
        }
    }
}

/// Reads a decimal number of 64 bits.
pub fn parse_u64(s: &str) -> (value: Option<u64>)
    ensures
        value == decimal_u64(s@),
{
    let chars: Vec<char> = chars_of(s);
    let n: usize = chars.len();
    let from: usize = if n > 0 && chars[0] == '+' {
        1
    } else {
        0
    };
    let ghost digits = unsigned_part(s@);
    proof {
        assert(digits =~= s@.skip(from as int));
    }
    if from == n {
        return None;
    }
    let mut value: u64 = 0;
    let mut i: usize = from;
    while i < n
        invariant
            n == chars@.len(),
            chars@ == s@,
            from <= i <= n,
            digits == s@.skip(from as int),
            digits == unsigned_part(s@),
            value == digits_value(digits.take(i - from)),
            forall|j: int| 0 <= j < i - from ==> is_digit(#[trigger] digits[j]),
        decreases n - i,
    {
        let c: char = chars[i];
        proof {
            assert(digits[i - from] == c);
            assert(digits.take(i - from + 1).drop_last() =~= digits.take(i - from));
        }
        if !('0' <= c && c <= '9') {
            return None;
        }
        let d: u64 = ((c as u8) - ('0' as u8)) as u64;
        proof {
            assert(digits_value(digits.take(i - from + 1)) == value * 10 + d);
            lemma_digits_value_grows(digits, i - from + 1);
        }
        if value > (u64::MAX - d) / 10 {
            return None;
        }
        value = value * 10 + d;
        i += 1;
    }
    proof {
        assert(digits.take(n - from) =~= digits);
    }
    Some(value)
}

/// Further digits never make a number smaller.
proof fn lemma_digits_value_grows(digits: Seq<char>, n: int)
    requires
        0 <= n <= digits.len(),
    ensures
        digits_value(digits.take(n)) <= digits_value(digits),
    decreases digits.len() - n,
{
    if n == digits.len() {
        assert(digits.take(n) =~= digits);
    } else {
        lemma_digits_value_grows(digits, n + 1);
        assert(digits.take(n + 1).drop_last() =~= digits.take(n));
    }
}

/// Appends the decimal digits of `n` to `text`.
pub fn push_decimal(text: &mut String, n: u64)
    ensures
        final(text)@ == old(text)@ + decimal_text(n as nat),
    decreases n,
{
    let ghost before = text@;
    if n >= 10 {
        push_decimal(text, n / 10);
    }
    let d: u8 = (n % 10) as u8;
    text.push((('0' as u8) + d) as char);
    proof {
        if n >= 10 {
            assert(text@ =~= before + decimal_text(n as nat / 10).push(digit_char(n as nat % 10)));
        } else {
            assert(text@ =~= before + seq![digit_char(n as nat)]);
        }
    }
}

/// Whether `s` holds white space alone.
pub open spec fn is_blank(s: Seq<char>) -> bool {
    forall|i: int| 0 <= i < s.len() ==> is_white_space(#[trigger] s[i])
}

/// Lower case neither makes white space nor takes it away.
proof fn lemma_lower_keeps_white_space(c: char)
    ensures
        is_white_space(ascii_lower_char(c)) == is_white_space(c),
        ascii_lower_char(ascii_lower_char(c)) == ascii_lower_char(c),
{
}

proof fn lemma_trimmed_start_of_lower(s: Seq<char>)
    ensures
        trimmed_start(ascii_lower(s)) == ascii_lower(trimmed_start(s)),
    decreases s.len(),
{
    if s.len() > 0 {
        lemma_lower_keeps_white_space(s[0]);
        lemma_trimmed_start_of_lower(s.drop_first());
        assert(ascii_lower(s).drop_first() =~= ascii_lower(s.drop_first()));
    }
}

proof fn lemma_trimmed_end_of_lower(s: Seq<char>)
    ensures
        trimmed_end(ascii_lower(s)) == ascii_lower(trimmed_end(s)),
    decreases s.len(),
{
    if s.len() > 0 {
        lemma_lower_keeps_white_space(s.last());
        lemma_trimmed_end_of_lower(s.drop_last());
        assert(ascii_lower(s).drop_last() =~= ascii_lower(s.drop_last()));
    }
}

/// Trimming and lower case can be done in either order, and lower case once
/// is lower case twice.
pub proof fn lemma_trimmed_of_lower(s: Seq<char>)
    ensures
        trimmed(ascii_lower(s)) == ascii_lower(trimmed(s)),
        ascii_lower(ascii_lower(trimmed(s))) == ascii_lower(trimmed(s)),
{
    lemma_trimmed_start_of_lower(s);
    lemma_trimmed_end_of_lower(trimmed_start(s));
    let t = trimmed(s);
    assert forall|i: int| 0 <= i < t.len() implies ascii_lower(ascii_lower(t))[i] == ascii_lower(
        t,
    )[i] by {
        lemma_lower_keeps_white_space(t[i]);
    }
    assert(ascii_lower(ascii_lower(t)) =~= ascii_lower(t));
}

proof fn lemma_trimmed_start_of_padded(before: Seq<char>, s: Seq<char>)
    requires
        is_blank(before),
    ensures
        trimmed_start(before + s) == trimmed_start(s),
    decreases before.len(),
{
    if before.len() == 0 {
        assert(before + s =~= s);
    } else {
        assert((before + s).drop_first() =~= before.drop_first() + s);
        lemma_trimmed_start_of_padded(before.drop_first(), s);
    }
}

proof fn lemma_trimmed_end_of_padded(s: Seq<char>, after: Seq<char>)
    requires
        is_blank(after),
    ensures
        trimmed_end(s + after) == trimmed_end(s),
    decreases after.len(),
{
    if after.len() == 0 {
        assert(s + after =~= s);
    } else {
        assert((s + after).drop_last() =~= s + after.drop_last());
        lemma_trimmed_end_of_padded(s, after.drop_last());
    }
}

/// What is left after the leading white space either starts with something
/// else or is nothing.
proof fn lemma_trimmed_start_shape(s: Seq<char>)
    ensures
        trimmed_start(s).len() <= s.len(),
        trimmed_start(s) == s.skip(s.len() - trimmed_start(s).len()),
        is_blank(s.take(s.len() - trimmed_start(s).len())),
        trimmed_start(s).len() > 0 ==> !is_white_space(trimmed_start(s)[0]),
    decreases s.len(),
{
    if s.len() > 0 && is_white_space(s[0]) {
        let rest = s.drop_first();
        lemma_trimmed_start_shape(rest);
        let n = rest.len() - trimmed_start(rest).len();
        assert(s.skip(n + 1) =~= rest.skip(n));
        assert forall|i: int| 0 <= i < n + 1 implies is_white_space(#[trigger] s.take(n + 1)[i]) by {
            if i > 0 {
                assert(rest.take(n)[i - 1] == s[i]);
            }
        }
    } else {
        assert(s.skip(0) =~= s);
    }
}

proof fn lemma_trimmed_end_shape(s: Seq<char>)
    ensures
        trimmed_end(s).len() <= s.len(),
        trimmed_end(s) == s.take(trimmed_end(s).len() as int),
        trimmed_end(s).len() > 0 ==> !is_white_space(trimmed_end(s).last()),
    decreases s.len(),
{
    if s.len() > 0 && is_white_space(s.last()) {
        lemma_trimmed_end_shape(s.drop_last());
        assert(s.drop_last().take(trimmed_end(s).len() as int) =~= s.take(
            trimmed_end(s).len() as int,
        ));
    } else {
        assert(s.take(s.len() as int) =~= s);
    }
}

/// White space added at either end is trimmed away.
pub proof fn lemma_trimmed_of_padded(before: Seq<char>, s: Seq<char>, after: Seq<char>)
    requires
        is_blank(before),
        is_blank(after),
    ensures
        trimmed(before + s + after) == trimmed(s),
{
    assert(before + s + after =~= before + (s + after));
    lemma_trimmed_start_of_padded(before, s + after);
    lemma_trimmed_start_shape(s);
    let start = trimmed_start(s);
    let n = s.len() - start.len();
    let lead = s.take(n);
    assert(s + after =~= lead + (start + after));
    lemma_trimmed_start_of_padded(lead, start + after);
    if start.len() > 0 {
        assert((start + after)[0] == start[0]);
        lemma_trimmed_end_of_padded(start, after);
    } else {
        assert(start + after =~= after);
        lemma_trimmed_start_of_padded(after, Seq::empty());
        assert(after + Seq::<char>::empty() =~= after);
        assert(trimmed_start(Seq::<char>::empty()) =~= Seq::<char>::empty());
        assert(start =~= Seq::<char>::empty());
    }
}

/// Trimming twice is trimming once.
proof fn lemma_trimmed_twice(s: Seq<char>)
    ensures
        trimmed(trimmed(s)) == trimmed(s),
{
    let start = trimmed_start(s);
    let t = trimmed(s);
    lemma_trimmed_start_shape(s);
    lemma_trimmed_end_shape(start);
    if t.len() > 0 {
        assert(t[0] == start[0]);
    }
}

/// No piece between commas holds a comma.
proof fn lemma_pieces_hold_no_comma(s: Seq<char>)
    ensures
        comma_pieces(s).len() > 0,
        forall|i: int|
            0 <= i < comma_pieces(s).len() ==> !(#[trigger] comma_pieces(s)[i]).contains(','),
    decreases s.len(),
{
    if s.len() > 0 {
        lemma_pieces_hold_no_comma(s.drop_last());
        let before = comma_pieces(s.drop_last());
        if s.last() != ',' {
            let grown = before.last().push(s.last());
            assert(!grown.contains(',')) by {
                if grown.contains(',') {
                    let k = choose|k: int| 0 <= k < grown.len() && grown[k] == ',';
                    assert(before.last()[k] == ',');
                }
            }
        }
    }
}

proof fn lemma_trimmed_nonempty_clean(pieces: Seq<Seq<char>>, i: int)
    requires
        forall|k: int| 0 <= k < pieces.len() ==> !(#[trigger] pieces[k]).contains(','),
        0 <= i < trimmed_nonempty(pieces).len(),
    ensures
        trimmed_nonempty(pieces)[i].len() > 0,
        !trimmed_nonempty(pieces)[i].contains(','),
        trimmed(trimmed_nonempty(pieces)[i]) == trimmed_nonempty(pieces)[i],
    decreases pieces.len(),
{
    let before = trimmed_nonempty(pieces.drop_last());
    if i < before.len() {
        lemma_trimmed_nonempty_clean(pieces.drop_last(), i);
    } else {
        let piece = pieces.last();
        let t = trimmed(piece);
        lemma_trimmed_twice(piece);
        lemma_trimmed_start_shape(piece);
        lemma_trimmed_end_shape(trimmed_start(piece));
        let skipped = piece.len() - trimmed_start(piece).len();
        assert(!t.contains(',')) by {
            if t.contains(',') {
                let k = choose|k: int| 0 <= k < t.len() && t[k] == ',';
                assert(piece[k + skipped] == ',');
            }
        }
    }
}

/// Every entry of a list is trimmed, holds no comma and is not empty.
pub proof fn lemma_list_entries_clean(s: Seq<char>, i: int)
    requires
        0 <= i < list_entries(s).len(),
    ensures
        list_entries(s)[i].len() > 0,
        !list_entries(s)[i].contains(','),
        trimmed(list_entries(s)[i]) == list_entries(s)[i],
{
    lemma_pieces_hold_no_comma(s);
    lemma_trimmed_nonempty_clean(comma_pieces(s), i);
}

/// Reading the decimal digits of a number gives the number back.
pub proof fn lemma_decimal_round_trip(n: u64)
    ensures
        decimal_u64(decimal_text(n as nat)) == Some(n),
{
    lemma_decimal_text_shape(n as nat);
    assert(unsigned_part(decimal_text(n as nat)) =~= decimal_text(n as nat));
}

/// The decimal digits of a number start with no plus sign, and with no zero
/// but that of zero itself.
pub proof fn lemma_decimal_text_is_plain(n: nat)
    ensures
        decimal_text(n).len() > 0,
        decimal_text(n)[0] != '+',
        decimal_text(n).len() > 1 ==> decimal_text(n)[0] != '0',
        n > 0 ==> decimal_text(n)[0] != '0',
    decreases n,
{
    lemma_decimal_text_shape(n);
    if n >= 10 {
        lemma_decimal_text_is_plain(n / 10);
        assert(decimal_text(n)[0] == decimal_text(n / 10)[0]);
    }
}

proof fn lemma_decimal_text_shape(n: nat)
    ensures
        decimal_text(n).len() > 0,
        forall|i: int| 0 <= i < decimal_text(n).len() ==> is_digit(#[trigger] decimal_text(n)[i]),
        digits_value(decimal_text(n)) == n,
    decreases n,
{
    if n < 10 {
        let text = decimal_text(n);
        assert(text.drop_last() =~= Seq::empty());
        assert(text.last() == digit_char(n));
        assert(digits_value(text.drop_last()) == 0);
    } else {
        lemma_decimal_text_shape(n / 10);
        let text = decimal_text(n);
        assert(text.drop_last() =~= decimal_text(n / 10));
    }
}

// ---------------------------------------------------------------------------
// Laws
// ---------------------------------------------------------------------------

/// White space are the tab, the line feed, the vertical tab, the form feed, the
/// carriage return, the space, the next line, the no-break space, the Ogham
/// space mark, the spaces of fixed widths, the line and the paragraph
/// separator, the narrow no-break space, the mathematical space and the
/// ideographic space.
pub proof fn law_white_space(c: char)
    ensures
        is_white_space(c) <==> {
            ||| c == '\t' || c == '\n' || c == '\u{b}' || c == '\u{c}' || c == '\r' || c == ' '
            ||| c == '\u{85}' || c == '\u{a0}' || c == '\u{1680}'
            ||| '\u{2000}' <= c <= '\u{200a}'
            ||| c == '\u{2028}' || c == '\u{2029}' || c == '\u{202f}' || c == '\u{205f}'
            ||| c == '\u{3000}'
        },
{
}

/// What is trimmed away at either end is white space, and what is left is
/// nothing or starts and ends with something else.
pub proof fn law_trimmed(s: Seq<char>)
    ensures
        exists|n: int, m: int|
            0 <= n <= m <= s.len() && trimmed(s) == #[trigger] s.subrange(n, m) && (forall|i: int|
                0 <= i < n || m <= i < s.len() ==> is_white_space(#[trigger] s[i])) && (n < m ==> !is_white_space(
                s[n],
            ) && !is_white_space(s[m - 1])),
{
    let start = trimmed_start(s);
    lemma_trimmed_start_shape(s);
    lemma_trimmed_end_shape(start);
    lemma_trimmed_end_rest(start);
    let n = s.len() - start.len();
    let m = n + trimmed(s).len();
    assert(trimmed(s) =~= s.subrange(n, m));
    assert forall|i: int| 0 <= i < n || m <= i < s.len() implies is_white_space(#[trigger] s[i]) by {
        if i < n {
            assert(s.take(n)[i] == s[i]);
        } else {
            assert(start[i - n] == s[i]);
        }
    }
    if n < m {
        assert(start[0] == s[n]);
        assert(trimmed(s).last() == s[m - 1]);
    }
}

proof fn lemma_trimmed_end_rest(s: Seq<char>)
    ensures
        forall|i: int| trimmed_end(s).len() <= i < s.len() ==> is_white_space(#[trigger] s[i]),
    decreases s.len(),
{
    if s.len() > 0 && is_white_space(s.last()) {
        let front = s.drop_last();
        lemma_trimmed_end_rest(front);
        assert forall|i: int| trimmed_end(s).len() <= i < s.len() implies is_white_space(
            #[trigger] s[i],
        ) by {
            if i < front.len() {
                assert(front[i] == s[i]);
            }
        }
    }
}

/// A text in lower case has as many characters as before: each capital letter
/// of ASCII has become the small one, and all others are as they were.
pub proof fn law_lower_case(s: Seq<char>)
    ensures
        ascii_lower(s).len() == s.len(),
        forall|i: int|
            0 <= i < s.len() ==> ({
                let c = #[trigger] ascii_lower(s)[i];
                if 'A' <= s[i] <= 'Z' {
                    'a' <= c <= 'z' && c as u32 == s[i] as u32 + 32
                } else {
                    c == s[i]
                }
            }),
{
}

proof fn lemma_pieces_of_two(a: Seq<char>, b: Seq<char>)
    ensures
        comma_pieces(a + seq![','] + b) == comma_pieces(a) + comma_pieces(b),
        comma_pieces(b).len() > 0,
    decreases b.len(),
{
    let s = a + seq![','] + b;
    if b.len() == 0 {
        assert(s.drop_last() =~= a);
        assert(comma_pieces(s) =~= comma_pieces(a) + comma_pieces(b));
    } else {
        lemma_pieces_of_two(a, b.drop_last());
        assert(s.drop_last() =~= a + seq![','] + b.drop_last());
        assert(comma_pieces(s) =~= comma_pieces(a) + comma_pieces(b));
    }
}

proof fn lemma_trimmed_nonempty_concat(a: Seq<Seq<char>>, b: Seq<Seq<char>>)
    ensures
        trimmed_nonempty(a + b) == trimmed_nonempty(a) + trimmed_nonempty(b),
    decreases b.len(),
{
    if b.len() == 0 {
        assert(a + b =~= a);
        assert(trimmed_nonempty(a) + trimmed_nonempty(b) =~= trimmed_nonempty(a));
    } else {
        lemma_trimmed_nonempty_concat(a, b.drop_last());
        assert((a + b).drop_last() =~= a + b.drop_last());
        assert((a + b).last() == b.last());
        assert(trimmed_nonempty(a + b) =~= trimmed_nonempty(a) + trimmed_nonempty(b));
    }
}

proof fn lemma_one_piece(s: Seq<char>)
    requires
        !s.contains(','),
    ensures
        comma_pieces(s) == seq![s],
    decreases s.len(),
{
    if s.len() > 0 {
        let front = s.drop_last();
        assert(!front.contains(',')) by {
            if front.contains(',') {
                let k = choose|k: int| 0 <= k < front.len() && front[k] == ',';
                assert(s[k] == ',');
            }
        }
        lemma_one_piece(front);
        assert(s[s.len() - 1] != ',');
        assert(front.push(s.last()) =~= s);
        assert(comma_pieces(s) =~= seq![s]);
    } else {
        assert(s =~= Seq::empty());
    }
}

/// The entries of two lists with a comma between them are those of the one and
/// then those of the other. A list without a comma has one entry, what is left
/// of it once trimmed, or none if nothing is left.
pub proof fn law_list_entries(a: Seq<char>, b: Seq<char>)
    ensures
        list_entries(a + seq![','] + b) == list_entries(a) + list_entries(b),
        !a.contains(',') ==> list_entries(a) == (if trimmed(a).len() == 0 {
            Seq::empty()
        } else {
            seq![trimmed(a)]
        }),
{
    lemma_pieces_of_two(a, b);
    lemma_trimmed_nonempty_concat(comma_pieces(a), comma_pieces(b));
    if !a.contains(',') {
        lemma_one_piece(a);
        reveal_with_fuel(trimmed_nonempty, 2);
        assert(seq![a].drop_last() =~= Seq::empty());
        assert(list_entries(a) =~= (if trimmed(a).len() == 0 {
            Seq::empty()
        } else {
            seq![trimmed(a)]
        }));
    }
}

/// One character reads as the number that its digit stands for, and one that
/// is no digit does not read as a number. No text reads as no number.
pub proof fn law_one_digit(c: char)
    ensures
        decimal_u64(seq![c]) == (if '0' <= c <= '9' {
            Some((c as u32 - 48) as u64)
        } else {
            None
        }),
        decimal_u64(Seq::empty()) is None,
{
    let s = seq![c];
    reveal_with_fuel(digits_value, 2);
    assert(s.drop_last() =~= Seq::empty());
    assert(s.drop_first() =~= Seq::empty());
    if c != '+' {
        assert(unsigned_part(s) =~= s);
        assert(s.last() == c);
        if '0' <= c <= '9' {
            assert(digits_value(s) == c as u32 - 48);
        } else {
            assert(!is_digit(s[0]));
        }
    }
}

/// With one more digit a number is ten times as much and the digit, as long as
/// that fits; with anything else behind it, it is no number.
pub proof fn law_next_digit(s: Seq<char>, c: char)
    requires
        s.len() > 0,
        s != seq!['+'],
    ensures
        decimal_u64(s.push(c)) == (match decimal_u64(s) {
            Some(n) => if '0' <= c <= '9' && n * 10 + (c as u32 - 48) <= u64::MAX {
                Some((n * 10 + (c as u32 - 48)) as u64)
            } else {
                None
            },
            None => None,
        }),
{
    let t = s.push(c);
    let digits = unsigned_part(s);
    let more = unsigned_part(t);
    if s[0] == '+' {
        assert(s.len() > 1) by {
            if s.len() == 1 {
                assert(s =~= seq!['+']);
            }
        }
    }
    assert(more =~= digits.push(c));
    assert(more.drop_last() =~= digits);
    assert(more.last() == c);
    if forall|i: int| 0 <= i < more.len() ==> is_digit(#[trigger] more[i]) {
        assert forall|i: int| 0 <= i < digits.len() implies is_digit(#[trigger] digits[i]) by {
            assert(more[i] == digits[i]);
        }
        assert(more[more.len() - 1] == c);
    }
    if (forall|i: int| 0 <= i < digits.len() ==> is_digit(#[trigger] digits[i])) && is_digit(c) {
        assert forall|i: int| 0 <= i < more.len() implies is_digit(#[trigger] more[i]) by {
            if i < digits.len() {
                assert(more[i] == digits[i]);
            }
        }
    }
}

/// A plus sign in front changes nothing, but a second one does.
pub proof fn law_plus_sign(s: Seq<char>)
    ensures
        decimal_u64(seq!['+'] + s) == (if s.len() > 0 && s[0] == '+' {
            None
        } else {
            decimal_u64(s)
        }),
{
    let t = seq!['+'] + s;
    assert(unsigned_part(t) =~= s);
    if s.len() > 0 && s[0] == '+' {
        assert(!is_digit(s[0]));
    } else {
        assert(unsigned_part(s) == s);
    }
}

} // verus!
