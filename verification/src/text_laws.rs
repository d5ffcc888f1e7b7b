//! What holds of the operations on text, whatever the text: what is cut off,
//! what is kept, and how pieces fit together again.
use crate::text;
use crate::text::{
    after_prefix, before_first, before_last, decimal_of, digits_value, has_substring,
    is_ascii_control, is_digit, is_hex_digit, is_whitespace, join_of, lines_of, parse_of,
    replace_of, signed_decimal_of, split_of, split_once_of, stands_at, stem_of, trim_end_char_of,
    trim_end_of, trim_of, trim_start_of, without_cr, IntError,
};
use vstd::prelude::*;

verus! {

// ---------------------------------------------------------------------------
// Characters
// ---------------------------------------------------------------------------
/// Of the characters of ASCII, whitespace is the space and what lies between the
/// tab and the carriage return; control characters are those below the space and
/// the last one; and digits are what they are.
pub proof fn law_ascii_classes(c: char)
    requires
        (c as nat) < 128,
    ensures
        is_whitespace(c) <==> (c as nat) == 32 || 9 <= (c as nat) <= 13,
        is_ascii_control(c) <==> (c as nat) < 32 || (c as nat) == 127,
        is_digit(c) <==> 48 <= (c as nat) <= 57,
        is_hex_digit(c) <==> 48 <= (c as nat) <= 57 || 65 <= (c as nat) <= 70 || 97 <= (c as nat)
            <= 102,
{
}

/// Beyond ASCII there is some whitespace, but no control character and no digit
/// that is told apart.
pub proof fn law_other_classes(c: char)
    requires
        (c as nat) >= 128,
    ensures
        !is_ascii_control(c),
        !is_digit(c),
        !is_hex_digit(c),
        c == '\u{a0}' || c == '\u{2003}' || c == '\u{3000}' ==> is_whitespace(c),
        (c as nat) > 0x3000 ==> !is_whitespace(c),
{
}

// ---------------------------------------------------------------------------
// Trimming
// ---------------------------------------------------------------------------
/// Whether the part of `s` from `from` up to `to` is all of it but the whitespace
/// at its end.
pub open spec fn is_end_trimmed(s: Seq<char>, to: int) -> bool {
    &&& 0 <= to <= s.len()
    &&& forall|k: int| to <= k < s.len() ==> is_whitespace(#[trigger] s[k])
    &&& to > 0 ==> !is_whitespace(s[to - 1])
}

/// What is trimmed at its end has lost whitespace alone, and ends with none.
pub proof fn law_trim_end(s: Seq<char>)
    ensures
        exists|to: int| #[trigger] is_end_trimmed(s, to) && trim_end_of(s) == s.take(to),
    decreases s.len(),
{
    if s.len() > 0 && is_whitespace(s.last()) {
        let fewer = s.drop_last();
        law_trim_end(fewer);
        let to = choose|to: int| #[trigger] is_end_trimmed(fewer, to) && trim_end_of(fewer)
            == fewer.take(to);
        assert forall|k: int| to <= k < s.len() implies is_whitespace(#[trigger] s[k]) by {
            if k < fewer.len() {
                assert(fewer[k] == s[k]);
            }
        }
        assert(to > 0 ==> fewer[to - 1] == s[to - 1]);
        assert(is_end_trimmed(s, to));
        assert(fewer.take(to) =~= s.take(to));
    } else {
        assert(is_end_trimmed(s, s.len() as int));
        assert(s.take(s.len() as int) =~= s);
    }
}

/// Whether the part of `s` from `from` on is all of it but the whitespace at its
/// start.
pub open spec fn is_start_trimmed(s: Seq<char>, from: int) -> bool {
    &&& 0 <= from <= s.len()
    &&& forall|k: int| 0 <= k < from ==> is_whitespace(#[trigger] s[k])
    &&& from < s.len() ==> !is_whitespace(s[from])
}

/// What is trimmed at its start has lost whitespace alone.
pub proof fn law_trim_start(s: Seq<char>)
    ensures
        exists|from: int| #[trigger] is_start_trimmed(s, from) && trim_start_of(s) == s.skip(from),
    decreases s.len(),
{
    if s.len() > 0 && is_whitespace(s[0]) {
        let rest = s.skip(1);
        law_trim_start(rest);
        let from = choose|from: int| #[trigger] is_start_trimmed(rest, from) && trim_start_of(rest)
            == rest.skip(from);
        assert forall|k: int| 0 <= k < from + 1 implies is_whitespace(#[trigger] s[k]) by {
            if k > 0 {
                assert(rest[k - 1] == s[k]);
            }
        }
        assert(from < rest.len() ==> rest[from] == s[from + 1]);
        assert(is_start_trimmed(s, from + 1));
        assert(rest.skip(from) =~= s.skip(from + 1));
    } else {
        assert(is_start_trimmed(s, 0));
        assert(s.skip(0) =~= s);
    }
}

/// Whether the part of `s` from `from` up to `to` is all of it but the whitespace
/// around it.
pub open spec fn is_trimmed(s: Seq<char>, from: int, to: int) -> bool {
    &&& 0 <= from <= to <= s.len()
    &&& forall|k: int| 0 <= k < from ==> is_whitespace(#[trigger] s[k])
    &&& forall|k: int| to <= k < s.len() ==> is_whitespace(#[trigger] s[k])
    &&& from < to ==> !is_whitespace(s[from]) && !is_whitespace(s[to - 1])
}

/// What is trimmed has lost whitespace alone, at its ends, and neither begins nor
/// ends with any.
pub proof fn law_trim(s: Seq<char>)
    ensures
        exists|from: int, to: int| #[trigger]
            is_trimmed(s, from, to) && trim_of(s) == s.subrange(from, to),
{
    law_trim_start(s);
    let from = choose|from: int| #[trigger] is_start_trimmed(s, from) && trim_start_of(s)
        == s.skip(from);
    let rest = s.skip(from);
    law_trim_end(rest);
    let n = choose|to: int| #[trigger] is_end_trimmed(rest, to) && trim_end_of(rest) == rest.take(
        to,
    );
    assert forall|k: int| from + n <= k < s.len() implies is_whitespace(#[trigger] s[k]) by {
        assert(rest[k - from] == s[k]);
    }
    if n > 0 {
        assert(rest[n - 1] == s[from + n - 1]);
    }
    assert(is_trimmed(s, from, from + n));
    assert(rest.take(n) =~= s.subrange(from, from + n));
}

/// A text that neither begins nor ends with whitespace is trimmed to itself, and
/// so is it with whitespace around it.
pub proof fn law_trim_keeps(a: Seq<char>, s: Seq<char>, b: Seq<char>)
    requires
        forall|k: int| 0 <= k < a.len() ==> is_whitespace(#[trigger] a[k]),
        forall|k: int| 0 <= k < b.len() ==> is_whitespace(#[trigger] b[k]),
        s.len() > 0,
        !is_whitespace(s[0]),
        !is_whitespace(s.last()),
    ensures
        trim_of(a + s + b) == s,
        trim_of(s) == s,
{
    let none = Seq::<char>::empty();
    lemma_trim_keeps(a, s, b);
    lemma_trim_keeps(none, s, none);
    assert(none + s + none =~= s);
}

proof fn lemma_trim_keeps(a: Seq<char>, s: Seq<char>, b: Seq<char>)
    requires
        forall|k: int| 0 <= k < a.len() ==> is_whitespace(#[trigger] a[k]),
        forall|k: int| 0 <= k < b.len() ==> is_whitespace(#[trigger] b[k]),
        s.len() > 0,
        !is_whitespace(s[0]),
        !is_whitespace(s.last()),
    ensures
        trim_of(a + s + b) == s,
{
    let all = a + s + b;
    law_trim(all);
    let (from, to) = choose|from: int, to: int| #[trigger]
        is_trimmed(all, from, to) && trim_of(all) == all.subrange(from, to);
    lemma_trimmed_unique(all, a.len() as int, (a.len() + s.len()) as int, from, to, a, s, b);
    assert(all.subrange(from, to) =~= s);
}

/// There is one way to trim a text that is not blank.
proof fn lemma_trimmed_unique(
    all: Seq<char>,
    from: int,
    to: int,
    f: int,
    t: int,
    a: Seq<char>,
    s: Seq<char>,
    b: Seq<char>,
)
    requires
        all == a + s + b,
        from == a.len(),
        to == a.len() + s.len(),
        s.len() > 0,
        !is_whitespace(s[0]),
        !is_whitespace(s.last()),
        forall|k: int| 0 <= k < a.len() ==> is_whitespace(#[trigger] a[k]),
        forall|k: int| 0 <= k < b.len() ==> is_whitespace(#[trigger] b[k]),
        is_trimmed(all, f, t),
    ensures
        f == from,
        t == to,
{
    assert(all[from] == s[0]);
    assert(all[to - 1] == s.last());
    assert(f <= from);
    assert(t >= to);
    if f < from {
        assert(all[f] == a[f]);
    }
    if t > to {
        assert(all[t - 1] == b[t - 1 - to]);
    }
}

/// What has the characters `c` at its end cut off has lost these alone, and ends
/// with none.
pub proof fn law_trim_end_char(s: Seq<char>, c: char, n: nat)
    requires
        s.len() > 0 ==> s.last() != c,
    ensures
        trim_end_char_of(s + Seq::new(n, |i: int| c), c) == s,
    decreases n,
{
    let all = s + Seq::new(n, |i: int| c);
    if n > 0 {
        law_trim_end_char(s, c, (n - 1) as nat);
        assert(all.drop_last() =~= s + Seq::new((n - 1) as nat, |i: int| c));
    } else {
        assert(all =~= s);
    }
}

// ---------------------------------------------------------------------------
// Searching
// ---------------------------------------------------------------------------
/// A text is found exactly where the other one is made of something, it, and
/// something.
pub proof fn law_substring(s: Seq<char>, p: Seq<char>, a: Seq<char>, b: Seq<char>)
    ensures
        has_substring(a + p + b, p),
        has_substring(s, p) ==> exists|x: Seq<char>, y: Seq<char>| s == #[trigger] (x + p + y),
{
    let all = a + p + b;
    assert(all.subrange(a.len() as int, (a.len() + p.len()) as int) =~= p);
    assert(stands_at(all, p, a.len() as int));
    if has_substring(s, p) {
        let at = choose|at: int| stands_at(s, p, at);
        let x = s.take(at);
        let y = s.skip(at + p.len());
        assert(s =~= x + p + y);
    }
}

/// What follows a prefix is what was put behind it, and there is nothing where
/// the text does not begin with the prefix.
pub proof fn law_after_prefix(s: Seq<char>, p: Seq<char>, rest: Seq<char>)
    ensures
        after_prefix(p + rest, p) == Some(rest),
        after_prefix(s, p) matches Some(r) ==> s == p + r,
{
    assert((p + rest).subrange(0, p.len() as int) =~= p);
    assert((p + rest).skip(p.len() as int) =~= rest);
    if p.is_prefix_of(s) {
        assert(s =~= p + s.skip(p.len() as int));
    }
}

/// Every character but `from` stays, and that one becomes `to`.
pub proof fn law_replace(s: Seq<char>, from: char, to: char, i: int)
    requires
        0 <= i < s.len(),
    ensures
        replace_of(s, from, to).len() == s.len(),
        s[i] != from ==> replace_of(s, from, to)[i] == s[i],
        s[i] == from ==> replace_of(s, from, to)[i] == to,
{
}

// ---------------------------------------------------------------------------
// Splitting and joining
// ---------------------------------------------------------------------------
/// A text splits at a separator into what comes before it and what comes after
/// it, and not at all where there is none.
pub proof fn law_split(a: Seq<char>, sep: char, b: Seq<char>)
    ensures
        split_of(a + seq![sep] + b, sep) == split_of(a, sep) + split_of(b, sep),
        !a.contains(sep) ==> split_of(a, sep) == seq![a],
{
    lemma_split_at(a, sep, b);
    if !a.contains(sep) {
        lemma_split_none(a, sep);
    }
}

proof fn lemma_split_none(a: Seq<char>, sep: char)
    requires
        !a.contains(sep),
    ensures
        split_of(a, sep) == seq![a],
    decreases a.len(),
{
    if a.len() > 0 {
        let fewer = a.drop_last();
        assert(!fewer.contains(sep)) by {
            if fewer.contains(sep) {
                let k = choose|k: int| 0 <= k < fewer.len() && fewer[k] == sep;
                assert(a[k] == sep);
            }
        }
        lemma_split_none(fewer, sep);
        assert(a[a.len() - 1] == a.last());
        assert(fewer.push(a.last()) =~= a);
        assert(split_of(a, sep) =~= seq![a]);
    } else {
        assert(a =~= Seq::<char>::empty());
    }
}

proof fn lemma_split_at(a: Seq<char>, sep: char, b: Seq<char>)
    ensures
        split_of(a + seq![sep] + b, sep) == split_of(a, sep) + split_of(b, sep),
    decreases b.len(),
{
    let all = a + seq![sep] + b;
    let first = split_of(a, sep);
    text::lemma_split_nonempty(a, sep);
    if b.len() == 0 {
        assert(all.drop_last() =~= a);
        assert(all.last() == sep);
        assert(split_of(all, sep) =~= first + split_of(b, sep));
    } else {
        let fewer = b.drop_last();
        lemma_split_at(a, sep, fewer);
        assert(all.drop_last() =~= a + seq![sep] + fewer);
        assert(all.last() == b.last());
        let before = split_of(fewer, sep);
        text::lemma_split_nonempty(fewer, sep);
        let joined = first + before;
        assert(joined.last() == before.last());
        if b.last() == sep {
            assert(joined.push(Seq::<char>::empty()) =~= first + before.push(Seq::<char>::empty()));
        } else {
            assert(joined.update(joined.len() - 1, joined.last().push(b.last())) =~= first
                + before.update(before.len() - 1, before.last().push(b.last())));
        }
    }
}

/// The first line of a text is what stands before its first line feed, without a
/// carriage return right before that; the other lines are those of the rest. A
/// text without a line feed is one line, unless it is empty.
pub proof fn law_lines(line: Seq<char>, rest: Seq<char>)
    requires
        !line.contains('\n'),
    ensures
        lines_of(line + seq!['\n'] + rest) == seq![
            if line.len() > 0 && line.last() == '\r' {
                line.drop_last()
            } else {
                line
            },
        ] + lines_of(rest),
        line.len() > 0 ==> lines_of(line) == seq![line],
        lines_of(Seq::<char>::empty()) == Seq::<Seq<char>>::empty(),
{
    law_split(line, '\n', rest);
    lemma_split_none(line, '\n');
    text::lemma_split_nonempty(rest, '\n');
    let all = line + seq!['\n'] + rest;
    let later = split_of(rest, '\n');
    assert(split_of(all, '\n') == seq![line] + later);
    assert((seq![line] + later).drop_last() =~= seq![line] + later.drop_last());
    assert((seq![line] + later).last() == later.last());
    let cut = |l: Seq<char>| without_cr(l);
    assert((seq![line] + later.drop_last()).map_values(cut) =~= seq![without_cr(line)]
        + later.drop_last().map_values(cut));
    assert(lines_of(all) =~= seq![without_cr(line)] + lines_of(rest));
    assert(seq![line].drop_last().map_values(cut) =~= Seq::<Seq<char>>::empty());
    assert(line.len() > 0 ==> lines_of(line) =~= seq![line]);
    let none = Seq::<char>::empty();
    assert(!none.contains('\n'));
    lemma_split_none(none, '\n');
    assert(seq![none].drop_last().map_values(cut) =~= Seq::<Seq<char>>::empty());
    assert(lines_of(none) =~= Seq::<Seq<char>>::empty());
}

/// Texts that are joined are one after another, with the separator between any
/// two of them and nowhere else.
pub proof fn law_join(a: Seq<Seq<char>>, b: Seq<Seq<char>>, sep: Seq<char>, one: Seq<char>)
    ensures
        a.len() > 0 && b.len() > 0 ==> join_of(a + b, sep) == join_of(a, sep) + sep + join_of(
            b,
            sep,
        ),
        join_of(seq![one], sep) == one,
        join_of(Seq::<Seq<char>>::empty(), sep) == Seq::<char>::empty(),
    decreases b.len(),
{
    if a.len() > 0 && b.len() > 0 {
        let fewer = b.drop_last();
        assert((a + b).drop_last() =~= a + fewer);
        assert((a + b).last() == b.last());
        if fewer.len() > 0 {
            law_join(a, fewer, sep, one);
            assert(join_of(a + b, sep) =~= join_of(a, sep) + sep + join_of(b, sep));
        } else {
            assert(a + fewer =~= a);
            assert(join_of(b, sep) == b.last());
        }
    }
}

/// A text is split once at its first separator, and not at all where it has
/// none.
pub proof fn law_split_once(a: Seq<char>, sep: char, b: Seq<char>)
    requires
        !a.contains(sep),
    ensures
        split_once_of(a + seq![sep] + b, sep) == Some((a, b)),
        split_once_of(a, sep) is None,
{
    let all = a + seq![sep] + b;
    lemma_before_sep(a, sep, b);
    assert(all[a.len() as int] == sep);
    assert(all.skip(a.len() as int + 1) =~= b);
}

proof fn lemma_before_sep(a: Seq<char>, sep: char, b: Seq<char>)
    requires
        !a.contains(sep),
    ensures
        before_first(a + seq![sep] + b, sep) == a,
    decreases a.len(),
{
    let all = a + seq![sep] + b;
    if a.len() == 0 {
        assert(all[0] == sep);
        assert(a =~= Seq::<char>::empty());
    } else {
        let rest = a.skip(1);
        assert(all[0] == a[0]);
        assert(a.contains(a[0]));
        assert(!rest.contains(sep)) by {
            if rest.contains(sep) {
                let k = choose|k: int| 0 <= k < rest.len() && rest[k] == sep;
                assert(a[k + 1] == sep);
            }
        }
        lemma_before_sep(rest, sep, b);
        assert(all.skip(1) =~= rest + seq![sep] + b);
        assert(seq![a[0]] + rest =~= a);
    }
}

/// A text that has a separator is split at the first one.
pub proof fn law_split_once_rejoins(s: Seq<char>, sep: char)
    ensures
        split_once_of(s, sep) is Some <==> s.contains(sep),
        split_once_of(s, sep) matches Some((a, b)) ==> s == a + seq![sep] + b && !a.contains(sep),
{
    if s.contains(sep) {
        let n = first_index(s, sep, 0);
        lemma_first_index(s, sep, 0);
        let a = s.take(n);
        let b = s.skip(n + 1);
        assert(s =~= a + seq![sep] + b);
        assert(!a.contains(sep)) by {
            if a.contains(sep) {
                let k = choose|k: int| 0 <= k < a.len() && a[k] == sep;
                assert(s[k] == sep);
            }
        }
        law_split_once(a, sep, b);
    }
}

/// The first place of a character from `from` on.
spec fn first_index(s: Seq<char>, c: char, from: int) -> int
    decreases s.len() - from,
{
    if from >= s.len() || s[from] == c {
        from
    } else {
        first_index(s, c, from + 1)
    }
}

proof fn lemma_first_index(s: Seq<char>, c: char, from: int)
    requires
        0 <= from <= s.len(),
        exists|k: int| from <= k < s.len() && s[k] == c,
    ensures
        from <= first_index(s, c, from) < s.len(),
        s[first_index(s, c, from)] == c,
        forall|k: int| from <= k < first_index(s, c, from) ==> s[k] != c,
    decreases s.len() - from,
{
    if s[from] != c {
        let k = choose|k: int| from <= k < s.len() && s[k] == c;
        assert(from + 1 <= k);
        lemma_first_index(s, c, from + 1);
    }
}

/// The name of a file loses what stands from its last dot on, where something
/// stands before that.
pub proof fn law_stem(name: Seq<char>, extension: Seq<char>)
    requires
        !extension.contains('.'),
        name.len() > 0,
        name != seq!['.'] || extension.len() > 0,
    ensures
        stem_of(name + seq!['.'] + extension) == name,
        stem_of(extension) == extension,
{
    reveal_strlit("..");
    let all = name + seq!['.'] + extension;
    lemma_before_last(name, extension);
    lemma_no_last(extension);
    if all == ".."@ {
        assert(all.len() == 2);
        assert(name =~= seq!['.']);
    }
}

proof fn lemma_before_last(name: Seq<char>, extension: Seq<char>)
    requires
        !extension.contains('.'),
    ensures
        before_last(name + seq!['.'] + extension, '.') == Some(name),
    decreases extension.len(),
{
    let all = name + seq!['.'] + extension;
    if extension.len() == 0 {
        assert(all.last() == '.');
        assert(all.drop_last() =~= name);
    } else {
        let fewer = extension.drop_last();
        assert(extension.contains(extension.last()));
        assert(!fewer.contains('.')) by {
            if fewer.contains('.') {
                let k = choose|k: int| 0 <= k < fewer.len() && fewer[k] == '.';
                assert(extension[k] == '.');
            }
        }
        lemma_before_last(name, fewer);
        assert(all.drop_last() =~= name + seq!['.'] + fewer);
    }
}

proof fn lemma_no_last(s: Seq<char>)
    requires
        !s.contains('.'),
    ensures
        before_last(s, '.') is None,
    decreases s.len(),
{
    if s.len() > 0 {
        let fewer = s.drop_last();
        assert(s.contains(s.last()));
        assert(!fewer.contains('.')) by {
            if fewer.contains('.') {
                let k = choose|k: int| 0 <= k < fewer.len() && fewer[k] == '.';
                assert(s[k] == '.');
            }
        }
        lemma_no_last(fewer);
    }
}

// ---------------------------------------------------------------------------
// Numbers
// ---------------------------------------------------------------------------
/// Numbers are written in base ten: one more digit at the end makes ten times
/// the number and that digit, and no number but zero begins with a zero.
pub proof fn law_decimal(n: nat, d: nat)
    requires
        d < 10,
    ensures
        decimal_of(d) == seq![(48 + d) as char],
        n > 0 ==> decimal_of(n * 10 + d) == decimal_of(n).push((48 + d) as char),
        signed_decimal_of(n as int) == decimal_of(n),
        n > 0 ==> signed_decimal_of(-(n as int)) == seq!['-'] + decimal_of(n),
{
    if n > 0 {
        assert((n * 10 + d) / 10 == n);
        assert((n * 10 + d) % 10 == d);
    }
}

/// A number is read in base ten, with one plus sign or none before it; one that
/// is greater than the greatest that is accepted is refused, and so is anything
/// that is no digit.
pub proof fn law_parse(s: Seq<char>, d: nat, c: char, max: nat)
    requires
        d < 10,
        s.len() > 0,
        c != '+',
        !is_digit(c),
    ensures
        parse_of(Seq::<char>::empty(), max) == Err::<nat, IntError>(IntError::Empty),
        d <= max ==> parse_of(seq![(48 + d) as char], max) == Ok::<nat, IntError>(d),
        parse_of(s, max) matches Ok(v) ==> parse_of(s.push((48 + d) as char), max) == if v * 10 + d
            <= max {
            Ok::<nat, IntError>((v * 10 + d) as nat)
        } else {
            Err::<nat, IntError>(IntError::TooLarge)
        },
        parse_of(s, max) is Ok ==> parse_of(s.push(c), max) == Err::<nat, IntError>(
            IntError::InvalidDigit,
        ),
        s[0] != '+' ==> parse_of(seq!['+'] + s, max) == parse_of(s, max),
        parse_of(seq!['+'], max) == Err::<nat, IntError>(IntError::InvalidDigit),
        parse_of(seq![c], max) == Err::<nat, IntError>(IntError::InvalidDigit),
{
    let digit = (48 + d) as char;
    let one = seq![digit];
    let none = Seq::<char>::empty();
    assert(one.drop_last() =~= none);
    assert(digits_value(none, max) == Ok::<nat, IntError>(0));
    assert(digit as nat == 48 + d);
    assert(is_digit(digit));
    assert(digit != '+');
    let more = s.push(digit);
    let bad = s.push(c);
    assert(more.drop_last() =~= s);
    assert(bad.drop_last() =~= s);
    if s[0] == '+' && s.len() > 1 {
        assert(more.skip(1).drop_last() =~= s.skip(1));
        assert(bad.skip(1).drop_last() =~= s.skip(1));
    }
    assert((seq!['+'] + s).skip(1) =~= s);
    assert(seq![c].drop_last() =~= none);
}

} // verus!
