//! The text fields of the entry form: how tags, priorities and dates are read from text and
//! written to it, and what makes each field valid.
use vstd::prelude::*;

use crate::text::{
    join, join_spec, split_spec, split_terminator, split_terminator_spec, trim, trim_end_spec,
    trim_spec, trim_start_spec, views,
};

verus! {

/// The tags shown in the tags field: the tags separated by a comma and a space.
pub fn tags_to_text(tags: &Vec<String>) -> (r: String)
    ensures
        r@ == join_spec(views(tags@), seq![',', ' ']),
{
    let sep = ", ";
    proof {
        reveal_strlit(", ");
        assert(sep@ =~= seq![',', ' ']);
    }
    join(tags, sep)
}

/// The tags read from the tags field: the comma-separated pieces, an empty last piece left
/// out, each trimmed of white space.
pub open spec fn text_to_tags_spec(text: Seq<char>) -> Seq<Seq<char>> {
    split_terminator_spec(text, ',').map_values(|piece: Seq<char>| trim_spec(piece))
}

/// The tags read from the tags field.
pub fn text_to_tags(text: &str) -> (tags: Vec<String>)
    ensures
        views(tags@) == text_to_tags_spec(text@),
{
    let pieces = split_terminator(text, ',');
    let ghost pv = views(pieces@);
    let mut tags: Vec<String> = Vec::new();
    let mut i: usize = 0;
    while i < pieces.len()
        invariant
            i <= pieces.len(),
            pv == views(pieces@),
            pv == split_terminator_spec(text@, ','),
            views(tags@) == pv.take(i as int).map_values(|piece: Seq<char>| trim_spec(piece)),
        decreases pieces.len() - i,
    {
        let t = trim(pieces[i].as_str());
        let ghost before = tags@;
        tags.push(t);
        assert(pv[i as int] == pieces@[i as int]@);
        assert(views(tags@) =~= views(before).push(t@));
        assert(pv.take(i + 1).map_values(|piece: Seq<char>| trim_spec(piece)) =~= pv.take(
            i as int,
        ).map_values(|piece: Seq<char>| trim_spec(piece)).push(trim_spec(pv[i as int])));
        i = i + 1;
    }
    assert(pv.take(pieces.len() as int) =~= pv);
    tags
}

/// No piece of a split holds the separator.
pub proof fn lemma_split_pieces_lack_sep(s: Seq<char>, sep: char)
    ensures
        forall|k: int| 0 <= k < split_spec(s, sep).len() ==> !#[trigger] split_spec(s, sep)[k].contains(sep),
    decreases s.len(),
{
    if s.len() > 0 {
        let prev = split_spec(s.drop_last(), sep);
        lemma_split_pieces_lack_sep(s.drop_last(), sep);
        crate::text::lemma_split_nonempty(s.drop_last(), sep);
        if s.last() != sep {
            let last = prev.last().push(s.last());
            assert(!last.contains(sep)) by {
                if last.contains(sep) {
                    let j = choose|j: int| 0 <= j < last.len() && last[j] == sep;
                    if j < prev.last().len() {
                        assert(prev[prev.len() - 1].contains(sep));
                    }
                }
            }
            assert forall|k: int| 0 <= k < split_spec(s, sep).len() implies !#[trigger] split_spec(s, sep)[k].contains(sep) by {
                if k < prev.len() - 1 {
                    assert(split_spec(s, sep)[k] == prev[k]);
                }
            }
        } else {
            assert forall|k: int| 0 <= k < split_spec(s, sep).len() implies !#[trigger] split_spec(s, sep)[k].contains(sep) by {
                if k < prev.len() {
                    assert(split_spec(s, sep)[k] == prev[k]);
                } else {
                    assert(split_spec(s, sep)[k] =~= Seq::<char>::empty());
                }
            }
        }
    }
}

/// Trimming keeps only characters of the text.
pub proof fn lemma_trim_keeps_chars(s: Seq<char>, c: char)
    ensures
        trim_spec(s).contains(c) ==> s.contains(c),
{
    lemma_trim_start_keeps(s, c);
    lemma_trim_end_keeps(trim_start_spec(s), c);
}

proof fn lemma_trim_start_keeps(s: Seq<char>, c: char)
    ensures
        trim_start_spec(s).contains(c) ==> s.contains(c),
    decreases s.len(),
{
    if s.len() > 0 && crate::text::is_white_space_spec(s[0]) {
        lemma_trim_start_keeps(s.drop_first(), c);
        if s.drop_first().contains(c) {
            let j = choose|j: int| 0 <= j < s.drop_first().len() && s.drop_first()[j] == c;
            assert(s[j + 1] == c);
        }
    }
}

proof fn lemma_trim_end_keeps(s: Seq<char>, c: char)
    ensures
        trim_end_spec(s).contains(c) ==> s.contains(c),
    decreases s.len(),
{
    if s.len() > 0 && crate::text::is_white_space_spec(s.last()) {
        lemma_trim_end_keeps(s.drop_last(), c);
        if s.drop_last().contains(c) {
            let j = choose|j: int| 0 <= j < s.drop_last().len() && s.drop_last()[j] == c;
            assert(s[j] == c);
        }
    }
}

/// No tag read from the tags field holds a comma.
pub proof fn law_tags_lack_comma(text: Seq<char>)
    ensures
        forall|k: int| 0 <= k < text_to_tags_spec(text).len() ==> !#[trigger] text_to_tags_spec(text)[k].contains(','),
{
    lemma_split_pieces_lack_sep(text, ',');
    crate::text::lemma_split_nonempty(text, ',');
    let p = split_spec(text, ',');
    let pt = split_terminator_spec(text, ',');
    assert forall|k: int| 0 <= k < text_to_tags_spec(text).len() implies !#[trigger] text_to_tags_spec(text)[k].contains(',') by {
        assert(pt[k] == p[k]);
        lemma_trim_keeps_chars(pt[k], ',');
    }
}

/// Whether `c` is one of the ASCII digits.
pub open spec fn is_digit(c: char) -> bool {
    48 <= c as u32 <= 57
}

/// `s` without a leading `+`.
pub open spec fn unsigned_part(s: Seq<char>) -> Seq<char> {
    if s.len() > 0 && s[0] == '+' {
        s.drop_first()
    } else {
        s
    }
}

/// Whether every character of `s` is an ASCII digit.
pub open spec fn all_digits(s: Seq<char>) -> bool {
    forall|i: int| 0 <= i < s.len() ==> is_digit(#[trigger] s[i])
}

/// The value of the ASCII digits `s`, most significant first.
pub open spec fn digits_value(s: Seq<char>) -> nat
    decreases s.len(),
{
    if s.len() == 0 {
        0
    } else {
        digits_value(s.drop_last()) * 10 + (s.last() as u32 - 48) as nat
    }
}

/// What reading `s` as a `u32` gives: an optional `+` followed by at least one ASCII digit,
/// with a value that fits in 32 bits.
pub open spec fn parse_u32_spec(s: Seq<char>) -> Option<u32> {
    let d = unsigned_part(s);
    if d.len() > 0 && all_digits(d) && digits_value(d) <= u32::MAX {
        Some(digits_value(d) as u32)
    } else {
        None
    }
}

/// Reads `s` as a `u32` in decimal, as `str::parse::<u32>` does.
pub fn parse_u32(s: &str) -> (r: Option<u32>)
    ensures
        r == parse_u32_spec(s@),
{
    let n = s.unicode_len();
    let mut start: usize = 0;
    if n > 0 && s.get_char(0) == '+' {
        start = 1;
    }
    let ghost d = unsigned_part(s@);
    assert(d =~= s@.subrange(start as int, n as int));
    if start == n {
        return None;
    }
    let mut acc: u64 = 0;
    let mut i: usize = start;
    while i < n
        invariant
            n == s@.len(),
            start < n,
            start <= i <= n,
            d == s@.subrange(start as int, n as int),
            d == unsigned_part(s@),
            acc == digits_value(d.take(i - start)),
            acc <= u32::MAX,
            forall|k: int| 0 <= k < i - start ==> is_digit(#[trigger] d[k]),
        decreases n - i,
    {
        let c = s.get_char(i);
        assert(c == d[i - start]);
        let u = c as u32;
        if u < 48 || u > 57 {
            assert(!is_digit(d[i - start]));
            return None;
        }
        assert(d.take(i - start + 1).drop_last() =~= d.take(i - start));
        acc = acc * 10 + (u - 48) as u64;
        if acc > 0xffff_ffff {
            proof {
                if all_digits(d) {
                    lemma_digits_value_grows(d, (i - start + 1) as int);
                }
            }
            return None;
        }
        i = i + 1;
    }
    assert(d.take(n - start) =~= d);
    Some(acc as u32)
}

/// A longer prefix of digits has at least the value of a shorter one.
proof fn lemma_digits_value_grows(d: Seq<char>, k: int)
    requires
        0 <= k <= d.len(),
        forall|i: int| 0 <= i < d.len() ==> is_digit(#[trigger] d[i]),
    ensures
        digits_value(d.take(k)) <= digits_value(d),
    decreases d.len() - k,
{
    if k < d.len() {
        lemma_digits_value_grows(d, k + 1);
        assert(d.take(k + 1).drop_last() =~= d.take(k));
    } else {
        assert(d.take(k) =~= d);
    }
}

/// The character of the digit `n`.
pub open spec fn digit_char(n: nat) -> char {
    seq!['0', '1', '2', '3', '4', '5', '6', '7', '8', '9'][n as int]
}

/// `n` written in decimal, without leading zeros.
pub open spec fn decimal_spec(n: nat) -> Seq<char>
    decreases n,
{
    if n < 10 {
        seq![digit_char(n)]
    } else {
        decimal_spec(n / 10).push(digit_char(n % 10))
    }
}

/// `n` in decimal, with a leading zero below ten.
pub open spec fn two_digits_spec(n: nat) -> Seq<char> {
    if n < 10 {
        seq!['0'] + decimal_spec(n)
    } else {
        decimal_spec(n)
    }
}

/// `n` in decimal, with a minus sign when negative.
pub open spec fn signed_decimal_spec(n: int) -> Seq<char> {
    if n < 0 {
        seq!['-'] + decimal_spec((-n) as nat)
    } else {
        decimal_spec(n as nat)
    }
}

/// The date field's text for a day, a month and a year: `dd-mm-yyyy`.
pub open spec fn date_text_spec(day: u32, month: u32, year: i32) -> Seq<char> {
    two_digits_spec(day as nat) + seq!['-'] + two_digits_spec(month as nat) + seq!['-']
        + signed_decimal_spec(year as int)
}

/// The text of one digit.
fn digit_text(d: u64) -> (r: &'static str)
    requires
        d < 10,
    ensures
        r@ == seq![digit_char(d as nat)],
{
    proof {
        reveal_strlit("0");
        reveal_strlit("1");
        reveal_strlit("2");
        reveal_strlit("3");
        reveal_strlit("4");
        reveal_strlit("5");
        reveal_strlit("6");
        reveal_strlit("7");
        reveal_strlit("8");
        reveal_strlit("9");
    }
    if d == 0 {
        "0"
    } else if d == 1 {
        "1"
    } else if d == 2 {
        "2"
    } else if d == 3 {
        "3"
    } else if d == 4 {
        "4"
    } else if d == 5 {
        "5"
    } else if d == 6 {
        "6"
    } else if d == 7 {
        "7"
    } else if d == 8 {
        "8"
    } else {
        "9"
    }
}

/// Appends `n` in decimal to `s`.
pub(crate) fn append_decimal(s: &mut String, n: u64)
    ensures
        final(s)@ == old(s)@ + decimal_spec(n as nat),
    decreases n,
{
    if n >= 10 {
        append_decimal(s, n / 10);
    }
    let ghost mid = s@;
    s.append(digit_text(n % 10));
    if n >= 10 {
        assert(s@ =~= old(s)@ + decimal_spec(n as nat));
    } else {
        assert(s@ =~= old(s)@ + decimal_spec(n as nat));
    }
}

/// `n` in decimal.
pub fn u32_text(n: u32) -> (r: String)
    ensures
        r@ == decimal_spec(n as nat),
{
    let mut s = String::new();
    append_decimal(&mut s, n as u64);
    assert(s@ =~= decimal_spec(n as nat));
    s
}

/// The date field's text for a day, a month and a year.
pub fn date_text(day: u32, month: u32, year: i32) -> (r: String)
    ensures
        r@ == date_text_spec(day, month, year),
{
    proof {
        reveal_strlit("0");
        reveal_strlit("-");
    }
    let mut s = String::new();
    if day < 10 {
        s.append("0");
    }
    append_decimal(&mut s, day as u64);
    s.append("-");
    if month < 10 {
        s.append("0");
    }
    append_decimal(&mut s, month as u64);
    s.append("-");
    if year < 0 {
        s.append("-");
        let magnitude: i64 = -(year as i64);
        append_decimal(&mut s, magnitude as u64);
    } else {
        append_decimal(&mut s, year as u64);
    }
    assert(s@ =~= date_text_spec(day, month, year));
    s
}

/// Appending text without the separator extends the last piece of a split.
proof fn lemma_split_append(s: Seq<char>, t: Seq<char>, sep: char)
    requires
        !t.contains(sep),
    ensures
        split_spec(s + t, sep) == split_spec(s, sep).update(
            split_spec(s, sep).len() - 1,
            split_spec(s, sep).last() + t,
        ),
    decreases t.len(),
{
    crate::text::lemma_split_nonempty(s, sep);
    if t.len() == 0 {
        assert(s + t =~= s);
        assert(split_spec(s, sep).last() + t =~= split_spec(s, sep).last());
        assert(split_spec(s, sep).update(split_spec(s, sep).len() - 1, split_spec(s, sep).last())
            =~= split_spec(s, sep));
    } else {
        let t0 = t.drop_last();
        assert(!t0.contains(sep)) by {
            if t0.contains(sep) {
                let j = choose|j: int| 0 <= j < t0.len() && t0[j] == sep;
                assert(t[j] == sep);
            }
        }
        lemma_split_append(s, t0, sep);
        assert((s + t).drop_last() =~= s + t0);
        assert((s + t).last() == t.last());
        assert(t.last() != sep) by {
            assert(t[t.len() - 1] == t.last());
        }
        let p = split_spec(s, sep);
        assert((p.last() + t0).push(t.last()) =~= p.last() + t);
        assert(p.update(p.len() - 1, p.last() + t0).update(p.len() - 1, p.last() + t) =~= p.update(
            p.len() - 1,
            p.last() + t,
        ));
    }
}

/// The pieces that splitting `tags` joined with a comma and a space gives: the first tag,
/// then each other tag after a space.
pub open spec fn joined_pieces(tags: Seq<Seq<char>>) -> Seq<Seq<char>> {
    Seq::new(tags.len(), |i: int| if i == 0 { tags[0] } else { seq![' '] + tags[i] })
}

/// Splitting tags joined with a comma and a space at the commas gives the tags back, each
/// but the first after a space, when no tag holds a comma.
proof fn lemma_split_joined(tags: Seq<Seq<char>>)
    requires
        tags.len() > 0,
        forall|k: int| 0 <= k < tags.len() ==> !(#[trigger] tags[k]).contains(','),
    ensures
        split_spec(join_spec(tags, seq![',', ' ']), ',') == joined_pieces(tags),
    decreases tags.len(),
{
    let sep = seq![',', ' '];
    if tags.len() == 1 {
        lemma_split_append(Seq::empty(), tags[0], ',');
        assert(Seq::<char>::empty() + tags[0] =~= tags[0]);
        assert(split_spec(Seq::<char>::empty(), ',') =~= seq![Seq::<char>::empty()]);
        assert(Seq::<char>::empty() + tags[0] =~= tags[0]);
        assert(joined_pieces(tags) =~= seq![tags[0]]);
    } else {
        let init = tags.drop_last();
        assert forall|k: int| 0 <= k < init.len() implies !(#[trigger] init[k]).contains(',') by {
            assert(init[k] == tags[k]);
        }
        lemma_split_joined(init);
        let j = join_spec(init, sep);
        let last = tags.last();
        assert(!tags[tags.len() - 1].contains(','));
        let t = seq![' '] + last;
        assert(!t.contains(',')) by {
            if t.contains(',') {
                let i = choose|i: int| 0 <= i < t.len() && t[i] == ',';
                assert(i > 0);
                assert(last[i - 1] == ',');
            }
        }
        assert(join_spec(tags, sep) =~= j.push(',') + t);
        lemma_split_append(j.push(','), t, ',');
        assert(j.push(',').drop_last() =~= j);
        crate::text::lemma_split_nonempty(j, ',');
        let pj = split_spec(j.push(','), ',');
        assert(pj == split_spec(j, ',').push(Seq::empty()));
        assert(Seq::<char>::empty() + t =~= t);
        assert(joined_pieces(tags) =~= joined_pieces(init).push(t));
        assert(pj.update(pj.len() - 1, pj.last() + t) =~= joined_pieces(init).push(t));
    }
}

/// A leading space goes with the white space that trimming removes.
proof fn lemma_trim_leading_space(x: Seq<char>)
    ensures
        trim_spec(seq![' '] + x) == trim_spec(x),
{
    let s = seq![' '] + x;
    assert(crate::text::is_white_space_spec(' '));
    assert(s.drop_first() =~= x);
}

/// Writing tags into the tags field and reading them back gives the same tags, when no tag
/// holds a comma or white space at its ends (the single empty tag reads back as none).
pub proof fn law_tags_text_round_trip(tags: Seq<Seq<char>>)
    requires
        forall|k: int|
            0 <= k < tags.len() ==> !(#[trigger] tags[k]).contains(',') && trim_spec(tags[k])
                == tags[k],
        !(tags.len() == 1 && tags[0].len() == 0),
    ensures
        text_to_tags_spec(join_spec(tags, seq![',', ' '])) == tags,
{
    if tags.len() == 0 {
        let s = join_spec(tags, seq![',', ' ']);
        assert(s =~= Seq::<char>::empty());
        assert(split_spec(s, ',') =~= seq![Seq::<char>::empty()]);
        assert(split_terminator_spec(s, ',') =~= Seq::<Seq<char>>::empty());
        assert(text_to_tags_spec(s) =~= tags);
    } else {
        lemma_split_joined(tags);
        let pieces = joined_pieces(tags);
        let s = join_spec(tags, seq![',', ' ']);
        assert(pieces.last().len() > 0) by {
            if tags.len() > 1 {
                assert(pieces.last() == seq![' '] + tags.last());
            }
        }
        assert(split_terminator_spec(s, ',') == pieces);
        assert forall|k: int| 0 <= k < tags.len() implies trim_spec(#[trigger] pieces[k]) == tags[k] by {
            if k > 0 {
                lemma_trim_leading_space(tags[k]);
            }
        }
        assert(text_to_tags_spec(s) =~= tags);
    }
}

/// The decimal text of `n` is a non-empty run of digits, not starting with `+`, worth `n`.
proof fn lemma_decimal_digits(n: nat)
    ensures
        decimal_spec(n).len() > 0,
        all_digits(decimal_spec(n)),
        digits_value(decimal_spec(n)) == n,
        decimal_spec(n)[0] != '+',
    decreases n,
{
    let d = decimal_spec(n);
    if n < 10 {
        assert(d == seq![digit_char(n)]);
        assert(d.drop_last() =~= Seq::<char>::empty());
        let c = digit_char(n);
        assert(c as u32 == 48 + n) by {
            if n == 0 {
                assert(c == '0');
            } else if n == 1 {
                assert(c == '1');
            } else if n == 2 {
                assert(c == '2');
            } else if n == 3 {
                assert(c == '3');
            } else if n == 4 {
                assert(c == '4');
            } else if n == 5 {
                assert(c == '5');
            } else if n == 6 {
                assert(c == '6');
            } else if n == 7 {
                assert(c == '7');
            } else if n == 8 {
                assert(c == '8');
            } else {
                assert(c == '9');
            }
        }
        assert(is_digit(d[0]));
        assert(d.last() == c);
        assert(digits_value(d) == digits_value(d.drop_last()) * 10 + (d.last() as u32 - 48) as nat);
        assert(digits_value(Seq::<char>::empty()) == 0);
    } else {
        let q = n / 10;
        let r = n % 10;
        lemma_decimal_digits(q);
        lemma_decimal_digits(r);
        let dq = decimal_spec(q);
        assert(d == dq.push(digit_char(r)));
        assert(d.drop_last() =~= dq);
        assert(decimal_spec(r) == seq![digit_char(r)]);
        assert(digits_value(decimal_spec(r)) == r);
        assert(decimal_spec(r).drop_last() =~= Seq::<char>::empty());
        assert(digit_char(r) as u32 - 48 == r);
        assert(is_digit(decimal_spec(r)[0]));
        assert forall|i: int| 0 <= i < d.len() implies is_digit(#[trigger] d[i]) by {
            if i < dq.len() {
                assert(d[i] == dq[i]);
            }
        }
        assert(q * 10 + r == n) by (nonlinear_arith)
            requires
                q == n / 10,
                r == n % 10,
        ;
        assert(d[0] == dq[0]);
        assert(d.last() == digit_char(r));
        assert(digits_value(d) == digits_value(dq) * 10 + (d.last() as u32 - 48) as nat);
    }
}

/// Writing a priority into the priority field and reading it back gives the same priority.
pub proof fn law_priority_text_round_trip(n: u32)
    ensures
        parse_u32_spec(decimal_spec(n as nat)) == Some(n),
{
    lemma_decimal_digits(n as nat);
    let d = decimal_spec(n as nat);
    assert(unsigned_part(d) == d);
}

} // verus!
