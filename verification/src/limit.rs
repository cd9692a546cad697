//! Bounding a body before any parser runs: a cap on its UTF-8 byte size by
//! truncation at a character boundary, then a cap on its line count by
//! dropping trailing lines.

use vstd::prelude::*;
use crate::config::{MAX_TEXT_SIZE, MAX_LINES};
use crate::scan::{CharClass, in_class, run_end, lemma_run_end, find_run_end};
use crate::text::{str_chars, chars_to_string};

verus! {

/// The lines of the text, as Rust's `lines()` yields them: split at every line
/// feed, one trailing carriage return stripped from a line ended by a line
/// feed, and no final empty line.
pub open spec fn lines_of(s: Seq<char>) -> Seq<Seq<char>>
    decreases s.len() via lines_of_decreases
{
    if s.len() == 0 {
        Seq::empty()
    } else {
        let k = run_end(s, 0, CharClass::NotNewline);
        if k >= s.len() {
            seq![s]
        } else {
            let line = if k > 0 && s[k - 1] == '\r' {
                s.subrange(0, k - 1)
            } else {
                s.subrange(0, k)
            };
            seq![line] + lines_of(s.skip(k + 1))
        }
    }
}

#[via_fn]
proof fn lines_of_decreases(s: Seq<char>) {
    if s.len() > 0 {
        lemma_run_end(s, 0, CharClass::NotNewline);
    }
}

/// The lines joined back with a line feed between each two.
pub open spec fn join_nl(ls: Seq<Seq<char>>) -> Seq<char>
    decreases ls.len(),
{
    if ls.len() == 0 {
        Seq::empty()
    } else if ls.len() == 1 {
        ls[0]
    } else {
        ls[0] + seq!['\n'] + join_nl(ls.drop_first())
    }
}

/// Width in bytes of one character's UTF-8 encoding.
pub open spec fn char_width(c: char) -> int {
    vstd::utf8::encode_scalar(c as u32).len() as int
}

/// Byte length of the text's UTF-8 encoding.
pub open spec fn byte_len(s: Seq<char>) -> int {
    vstd::utf8::encode_utf8(s).len() as int
}

/// The encoding of a concatenation is the concatenation of the encodings.
proof fn lemma_encode_concat(a: Seq<char>, b: Seq<char>)
    ensures
        vstd::utf8::encode_utf8(a + b) == vstd::utf8::encode_utf8(a) + vstd::utf8::encode_utf8(b),
    decreases a.len(),
{
    if a.len() == 0 {
        assert(a + b =~= b);
        assert(vstd::utf8::encode_utf8(a) =~= Seq::<u8>::empty());
        assert(vstd::utf8::encode_utf8(a) + vstd::utf8::encode_utf8(b) =~= vstd::utf8::encode_utf8(
            b,
        ));
    } else {
        lemma_encode_concat(a.drop_first(), b);
        assert((a + b).drop_first() =~= a.drop_first() + b);
        assert((a + b)[0] == a[0]);
        assert(vstd::utf8::encode_utf8(a + b) =~= vstd::utf8::encode_utf8(a)
            + vstd::utf8::encode_utf8(b));
    }
}

/// Byte length splits at any character position.
proof fn lemma_byte_len_split(s: Seq<char>, k: int)
    requires
        0 <= k <= s.len(),
    ensures
        byte_len(s) == byte_len(s.take(k)) + byte_len(s.skip(k)),
{
    lemma_encode_concat(s.take(k), s.skip(k));
    assert(s.take(k) + s.skip(k) =~= s);
}

/// One character's byte length, as a single-character text.
proof fn lemma_byte_len_single(c: char)
    ensures
        byte_len(seq![c]) == char_width(c),
{
    assert(seq![c].drop_first() =~= Seq::<char>::empty());
    assert(vstd::utf8::encode_utf8(Seq::<char>::empty()) =~= Seq::<u8>::empty());
    assert(vstd::utf8::encode_utf8(seq![c]) =~= vstd::utf8::encode_scalar(c as u32));
}

/// How many leading characters fit within `budget` bytes of UTF-8.
pub open spec fn chars_within(s: Seq<char>, budget: int) -> int
    decreases s.len(),
{
    if s.len() == 0 {
        0
    } else if char_width(s[0]) <= budget {
        1 + chars_within(s.drop_first(), budget - char_width(s[0]))
    } else {
        0
    }
}

/// The cut is within the text, what is kept fits the budget, the next
/// character would overrun it, and a text within the budget is kept whole.
pub proof fn lemma_chars_within(s: Seq<char>, budget: int)
    requires
        budget >= 0,
    ensures
        0 <= chars_within(s, budget) <= s.len(),
        byte_len(s.take(chars_within(s, budget))) <= budget,
        chars_within(s, budget) < s.len() ==> byte_len(s.take(chars_within(s, budget) + 1))
            > budget,
        byte_len(s) <= budget ==> chars_within(s, budget) == s.len(),
    decreases s.len(),
{
    if s.len() == 0 {
        assert(s.take(0) =~= s);
    } else {
        let w = char_width(s[0]);
        assert(1 <= w <= 4);
        assert(byte_len(s) == w + byte_len(s.drop_first()));
        if w <= budget {
            lemma_chars_within(s.drop_first(), budget - w);
            let cw = chars_within(s, budget);
            assert(s.take(cw).drop_first() =~= s.drop_first().take(cw - 1));
            assert(s.take(cw)[0] == s[0]);
            assert(byte_len(s.take(cw)) == w + byte_len(s.drop_first().take(cw - 1)));
            if cw < s.len() {
                assert(s.take(cw + 1).drop_first() =~= s.drop_first().take(cw));
                assert(s.take(cw + 1)[0] == s[0]);
                assert(byte_len(s.take(cw + 1)) == w + byte_len(s.drop_first().take(cw)));
            }
        } else {
            assert(s.take(0) =~= Seq::<char>::empty());
            assert(s.take(1) =~= seq![s[0]]);
            lemma_byte_len_single(s[0]);
            assert(byte_len(s.take(1)) == w);
        }
    }
}

/// The text cut at the last character boundary within `MAX_TEXT_SIZE` bytes of
/// UTF-8; a text that fits the cap is kept whole.
pub open spec fn limit_size(s: Seq<char>) -> Seq<char> {
    s.take(chars_within(s, MAX_TEXT_SIZE as int))
}

/// Width in bytes of one character's UTF-8 encoding.
pub fn char_width_exec(c: char) -> (r: usize)
    ensures
        r as int == char_width(c),
        1 <= r <= 4,
{
    proof {
        vstd::utf8::char_is_scalar(c);
    }
    let u = c as u32;
    if u <= 0x7F {
        1
    } else if u <= 0x7FF {
        2
    } else if u <= 0xFFFF {
        3
    } else {
        4
    }
}

/// The text cut to its first `MAX_LINES` lines; a text already within the cap
/// is left as it stands.
pub open spec fn limit_lines(s: Seq<char>) -> Seq<char> {
    let ls = lines_of(s);
    if ls.len() > MAX_LINES {
        join_nl(ls.take(MAX_LINES as int))
    } else {
        s
    }
}

/// The whole bound: size first, lines second.
pub open spec fn limit_text(s: Seq<char>) -> Seq<char> {
    limit_lines(limit_size(s))
}

/// Appending one more line to a prefix of the line list extends the join by a
/// separator and that line.
proof fn lemma_join_take_snoc(ls: Seq<Seq<char>>, k: int)
    requires
        1 <= k < ls.len(),
    ensures
        join_nl(ls.take(k + 1)) == join_nl(ls.take(k)) + seq!['\n'] + ls[k],
    decreases k,
{
    if k == 1 {
        assert(ls.take(2).drop_first() =~= seq![ls[1]]);
        assert(ls.take(2)[0] == ls[0]);
        assert(join_nl(seq![ls[1]]) == seq![ls[1]][0]);
        assert(join_nl(ls.take(2)) == ls[0] + seq!['\n'] + ls[1]);
        assert(ls.take(1) =~= seq![ls[0]]);
    } else {
        lemma_join_take_snoc(ls.drop_first(), k - 1);
        assert(ls.take(k + 1).drop_first() =~= ls.drop_first().take(k));
        assert(ls.take(k).drop_first() =~= ls.drop_first().take(k - 1));
        assert(join_nl(ls.take(k + 1)) == ls[0] + seq!['\n'] + join_nl(ls.drop_first().take(k)));
        assert(join_nl(ls.take(k)) == ls[0] + seq!['\n'] + join_nl(ls.drop_first().take(k - 1)));
        assert(ls.drop_first()[k - 1] == ls[k]);
        assert(join_nl(ls.take(k + 1)) =~= join_nl(ls.take(k)) + seq!['\n'] + ls[k]);
    }
}

/// The join of the first `k` lines never exceeds the text's byte length: the
/// line cut only ever shrinks a text.
pub proof fn lemma_join_lines_len(s: Seq<char>, k: int)
    requires
        0 <= k <= lines_of(s).len(),
    ensures
        byte_len(join_nl(lines_of(s).take(k))) <= byte_len(s),
    decreases s.len(),
{
    if k == 0 || s.len() == 0 {
        assert(lines_of(s).take(0) =~= Seq::<Seq<char>>::empty());
        assert(byte_len(join_nl(lines_of(s).take(0))) == 0);
    } else {
        let ke = run_end(s, 0, CharClass::NotNewline);
        lemma_run_end(s, 0, CharClass::NotNewline);
        if ke >= s.len() {
            assert(lines_of(s).take(1) =~= seq![s]);
        } else {
            let rest = s.skip(ke + 1);
            let line = if ke > 0 && s[ke - 1] == '\r' {
                s.subrange(0, ke - 1)
            } else {
                s.subrange(0, ke)
            };
            assert(lines_of(s) == seq![line] + lines_of(rest));
            // The whole text's bytes: the first run, its line feed, the rest.
            lemma_byte_len_split(s, ke + 1);
            lemma_byte_len_split(s.take(ke + 1), ke);
            assert(s.take(ke + 1).take(ke) =~= s.take(ke));
            assert(s.take(ke + 1).skip(ke) =~= seq![s[ke]]);
            assert(s[ke] == '\n');
            lemma_byte_len_single('\n');
            assert(char_width('\n') == 1);
            assert(byte_len(s) == byte_len(s.take(ke)) + 1 + byte_len(rest));
            // The first line's bytes never exceed the first run's.
            if ke > 0 && s[ke - 1] == '\r' {
                lemma_byte_len_split(s.take(ke), ke - 1);
                assert(s.take(ke).take(ke - 1) =~= line);
            } else {
                assert(s.take(ke) =~= line);
            }
            assert(byte_len(line) <= byte_len(s.take(ke)));
            if k == 1 {
                assert(lines_of(s).take(1) =~= seq![line]);
                assert(join_nl(lines_of(s).take(1)) == line);
            } else {
                lemma_join_lines_len(rest, k - 1);
                assert(lines_of(s).take(k).drop_first() =~= lines_of(rest).take(k - 1));
                assert(lines_of(s).take(k)[0] == line);
                assert(join_nl(lines_of(s).take(k)) == line + seq!['\n'] + join_nl(
                    lines_of(rest).take(k - 1),
                ));
                lemma_encode_concat(line, seq!['\n']);
                lemma_encode_concat(line + seq!['\n'], join_nl(lines_of(rest).take(k - 1)));
                assert(byte_len(join_nl(lines_of(s).take(k))) == byte_len(line) + 1 + byte_len(
                    join_nl(lines_of(rest).take(k - 1)),
                ));
            }
        }
    }
}

/// No line yielded by `lines_of` contains a line feed.
pub open spec fn no_newline(p: Seq<char>) -> bool {
    forall|j: int| 0 <= j < p.len() ==> p[j] != '\n'
}

pub proof fn lemma_lines_no_newline(s: Seq<char>)
    ensures
        forall|i: int| 0 <= i < lines_of(s).len() ==> #[trigger] no_newline(lines_of(s)[i]),
    decreases s.len(),
{
    if s.len() > 0 {
        let ke = run_end(s, 0, CharClass::NotNewline);
        lemma_run_end(s, 0, CharClass::NotNewline);
        if ke >= s.len() {
            assert(no_newline(s));
        } else {
            let rest = s.skip(ke + 1);
            lemma_lines_no_newline(rest);
            assert(lines_of(s).drop_first() =~= lines_of(rest));
            assert(no_newline(lines_of(s)[0]));
            assert(forall|i: int|
                1 <= i < lines_of(s).len() ==> lines_of(s)[i] == lines_of(rest)[i - 1]);
        }
    }
}

/// Where the first `m` characters are in the class and the next is not, the
/// run from zero ends exactly at `m`.
proof fn lemma_run_end_is(s: Seq<char>, i: int, m: int, k: CharClass)
    requires
        0 <= i <= m <= s.len(),
        forall|j: int| i <= j < m ==> in_class(k, s[j]),
        m < s.len() ==> !in_class(k, s[m]),
    ensures
        run_end(s, i, k) == m,
    decreases m - i,
{
    if i < m {
        lemma_run_end_is(s, i + 1, m, k);
    }
}

/// Splitting the join of line lists gives back at most as many lines, and
/// exactly as many where the last line is not empty.
pub proof fn lemma_lines_of_join(ls: Seq<Seq<char>>)
    requires
        ls.len() >= 1,
        forall|i: int| 0 <= i < ls.len() ==> #[trigger] no_newline(ls[i]),
    ensures
        lines_of(join_nl(ls)).len() <= ls.len(),
        ls.last().len() > 0 ==> lines_of(join_nl(ls)).len() == ls.len(),
    decreases ls.len(),
{
    if ls.len() == 1 {
        let t = ls[0];
        assert(no_newline(ls[0]));
        if t.len() > 0 {
            lemma_run_end_is(t, 0, t.len() as int, CharClass::NotNewline);
            assert(lines_of(t) =~= seq![t]);
        }
    } else {
        let t = join_nl(ls);
        let first = ls[0];
        let rest = join_nl(ls.drop_first());
        assert(t == first + seq!['\n'] + rest);
        assert(forall|j: int| 0 <= j < first.len() ==> t[j] == first[j]);
        assert(t[first.len() as int] == '\n');
        assert(no_newline(ls[0]));
        lemma_run_end_is(t, 0, first.len() as int, CharClass::NotNewline);
        assert(t.skip(first.len() as int + 1) =~= rest);
        assert(forall|i: int| 0 <= i < ls.drop_first().len() ==> ls.drop_first()[i] == ls[i + 1]);
        lemma_lines_of_join(ls.drop_first());
        assert(ls.drop_first().last() == ls.last());
        assert(lines_of(t).len() == 1 + lines_of(rest).len());
    }
}

/// The bound text never exceeds the size cap, measured in bytes of UTF-8.
pub proof fn lemma_limit_text_size(s: Seq<char>)
    ensures
        byte_len(limit_text(s)) <= MAX_TEXT_SIZE as int,
{
    lemma_chars_within(s, MAX_TEXT_SIZE as int);
    let t = limit_size(s);
    let ls = lines_of(t);
    if ls.len() > MAX_LINES {
        lemma_join_lines_len(t, MAX_LINES as int);
    }
}

/// The bound text never exceeds the line cap; where the cap cuts and the last
/// kept line is not empty, exactly the cap's worth of lines remain.
pub proof fn lemma_limit_text_lines(s: Seq<char>)
    ensures
        lines_of(limit_text(s)).len() <= MAX_LINES,
        (lines_of(limit_size(s)).len() > MAX_LINES && lines_of(limit_size(s))[MAX_LINES as int
            - 1].len() > 0) ==> lines_of(limit_text(s)).len() == MAX_LINES,
{
    let t = limit_size(s);
    let ls = lines_of(t);
    if ls.len() > MAX_LINES {
        lemma_lines_no_newline(t);
        assert(forall|i: int|
            0 <= i < MAX_LINES ==> ls.take(MAX_LINES as int)[i] == ls[i]);
        assert(ls.take(MAX_LINES as int).last() == ls[MAX_LINES as int - 1]);
        lemma_lines_of_join(ls.take(MAX_LINES as int));
    }
}

/// The body bound before parsing: at most `MAX_TEXT_SIZE` bytes of UTF-8 kept,
/// cut at a character boundary, then at most the first `MAX_LINES` lines.
pub fn safe_limit_text(text: &str) -> (r: String)
    ensures
        r@ == limit_text(text@),
{
    let cs = str_chars(text);
    let limited = limit_chars(cs);
    chars_to_string(limited.as_slice())
}

/// The same bound, on a character vector.
pub fn limit_chars(cs: Vec<char>) -> (r: Vec<char>)
    ensures
        r@ == limit_text(cs@),
{
    let ghost orig = cs@;
    let mut cs = cs;
    let l0: usize = cs.len();
    let mut cut: usize = 0;
    let mut acc: usize = 0;
    proof {
        assert(orig.take(0) =~= Seq::<char>::empty());
        assert(orig.skip(0) =~= orig);
    }
    loop
        invariant_except_break
            chars_within(orig, MAX_TEXT_SIZE as int) == cut + chars_within(
                orig.skip(cut as int),
                MAX_TEXT_SIZE as int - acc as int,
            ),
        invariant
            l0 == cs@.len(),
            cs@ == orig,
            0 <= cut <= l0,
            acc <= MAX_TEXT_SIZE,
            acc as int == byte_len(orig.take(cut as int)),
        ensures
            cut as int == chars_within(orig, MAX_TEXT_SIZE as int),
        decreases l0 - cut,
    {
        if cut >= l0 {
            assert(orig.skip(cut as int) =~= Seq::<char>::empty());
            break ;
        }
        let w = char_width_exec(cs[cut]);
        proof {
            assert(orig.skip(cut as int)[0] == orig[cut as int]);
        }
        if acc + w > MAX_TEXT_SIZE {
            assert(chars_within(orig.skip(cut as int), MAX_TEXT_SIZE as int - acc as int) == 0);
            break ;
        }
        proof {
            assert(orig.skip(cut as int).drop_first() =~= orig.skip(cut as int + 1));
            lemma_byte_len_split(orig.take(cut as int + 1), cut as int);
            assert(orig.take(cut as int + 1).take(cut as int) =~= orig.take(cut as int));
            assert(orig.take(cut as int + 1).skip(cut as int) =~= seq![orig[cut as int]]);
            lemma_byte_len_single(orig[cut as int]);
        }
        acc = acc + w;
        cut += 1;
    }
    cs.truncate(cut);
    proof {
        lemma_chars_within(orig, MAX_TEXT_SIZE as int);
        assert(cs@ =~= limit_size(orig));
    }
    let l: usize = cs.len();
    let ghost t = cs@;

    // Collect the ranges of the first `MAX_LINES` lines: start, end, and the
    // tail of the text each leaves unconsumed.
    let mut ranges: Vec<(usize, usize)> = Vec::new();
    let mut pos: usize = 0;
    proof {
        assert(t.skip(0) =~= t);
        assert(lines_of(t).take(0) =~= Seq::<Seq<char>>::empty());
        assert(lines_of(t).take(0) + lines_of(t.skip(0)) =~= lines_of(t));
    }
    while pos < l && ranges.len() < MAX_LINES
        invariant
            l == cs@.len(),
            t == cs@,
            0 <= pos <= l,
            ranges@.len() <= MAX_LINES,
            lines_of(t).take(ranges@.len() as int) + lines_of(t.skip(pos as int)) == lines_of(t),
            lines_of(t).take(ranges@.len() as int).len() == ranges@.len(),
            forall|i: int| 0 <= i < ranges@.len() ==> (#[trigger] ranges@[i]).0 <= ranges@[i].1
                <= l,
            forall|i: int| 0 <= i < ranges@.len() ==> lines_of(t)[i] == t.subrange(
                ranges@[i].0 as int,
                ranges@[i].1 as int,
            ),
            pos == l ==> lines_of(t.skip(pos as int)).len() == 0,
            pos < l ==> lines_of(t.skip(pos as int)).len() > 0,
        decreases l - pos,
    {
        let ghost done = ranges@.len() as int;
        let k = find_run_end(cs.as_slice(), pos, CharClass::NotNewline);
        proof {
            lemma_run_end(t, pos as int, CharClass::NotNewline);
        }
        let ghost tail = t.skip(pos as int);
        proof {
            // The next line of the remaining text, in terms of the whole text.
            assert(tail.len() > 0);
            lemma_run_end_skip(t, pos as int, CharClass::NotNewline);
            assert(run_end(tail, 0, CharClass::NotNewline) == k - pos);
        }
        if k >= l {
            ranges.push((pos, l));
            proof {
                assert(lines_of(tail) =~= seq![tail]);
                assert(t.subrange(pos as int, l as int) =~= tail);
                lemma_take_one_more(lines_of(t), done);
                assert(lines_of(t).take(done + 1) + lines_of(t.skip(l as int)) =~= lines_of(t));
            }
            pos = l;
        } else {
            let strip = k > pos && cs[k - 1] == '\r';
            let e = if strip {
                k - 1
            } else {
                k
            };
            ranges.push((pos, e));
            proof {
                let line = if k - pos > 0 && tail[k - pos - 1] == '\r' {
                    tail.subrange(0, k - pos - 1)
                } else {
                    tail.subrange(0, k - pos)
                };
                assert(lines_of(tail) == seq![line] + lines_of(tail.skip(k - pos + 1)));
                if k > pos {
                    assert(tail[k - pos - 1] == t[k - 1]);
                }
                assert(line =~= t.subrange(pos as int, e as int));
                assert(tail.skip(k - pos + 1) =~= t.skip(k + 1));
                lemma_take_one_more(lines_of(t), done);
                assert(lines_of(t).take(done + 1) + lines_of(t.skip(k + 1)) =~= lines_of(t));
            }
            pos = k + 1;
        }
    }
    if pos >= l {
        // Every line fits the cap: the size-capped text stands as it is.
        assert(lines_of(t).take(ranges@.len() as int) =~= lines_of(t));
        assert(lines_of(t).len() <= MAX_LINES);
        cs
    } else {
        // Over the cap: join the collected lines back with line feeds.
        assert(ranges@.len() == MAX_LINES);
        assert(lines_of(t).len() > MAX_LINES) by {
            assert(lines_of(t.skip(pos as int)).len() > 0);
        }
        let ghost kept = lines_of(t).take(MAX_LINES as int);
        let mut out: Vec<char> = Vec::new();
        let n: usize = ranges.len();
        let mut idx: usize = 0;
        while idx < n
            invariant
                n == ranges@.len(),
                n == MAX_LINES,
                kept == lines_of(t).take(MAX_LINES as int),
                kept.len() == n,
                t == cs@,
                0 <= idx <= n,
                forall|i: int| 0 <= i < n ==> (#[trigger] ranges@[i]).0 <= ranges@[i].1
                    <= t.len(),
                forall|i: int| 0 <= i < n ==> kept[i] == t.subrange(
                    ranges@[i].0 as int,
                    ranges@[i].1 as int,
                ),
                idx > 0 ==> out@ == join_nl(kept.take(idx as int)),
                idx == 0 ==> out@ == Seq::<char>::empty(),
            decreases n - idx,
        {
            let ghost before = out@;
            if idx > 0 {
                out.push('\n');
            }
            let (a, b) = (ranges[idx].0, ranges[idx].1);
            let mut j: usize = a;
            while j < b
                invariant
                    a <= j <= b <= t.len(),
                    t == cs@,
                    out@ == (if idx > 0 {
                        before.push('\n')
                    } else {
                        before
                    }) + t.subrange(a as int, j as int),
                decreases b - j,
            {
                let c = cs[j];
                out.push(c);
                assert(t.subrange(a as int, j + 1) =~= t.subrange(a as int, j as int).push(
                    t[j as int],
                ));
                j += 1;
            }
            proof {
                assert(kept[idx as int] == t.subrange(a as int, b as int));
                if idx == 0 {
                    assert(kept.take(1) =~= seq![kept[0]]);
                    assert(out@ =~= join_nl(kept.take(1)));
                } else {
                    lemma_join_take_snoc(kept, idx as int);
                    assert(out@ =~= join_nl(kept.take(idx as int)) + seq!['\n']
                        + kept[idx as int]);
                }
            }
            idx += 1;
        }
        assert(kept.take(n as int) =~= kept);
        assert(out@ == join_nl(kept));
        out
    }
}

/// A run within the tail of a text mirrors the run within the whole.
proof fn lemma_run_end_skip(s: Seq<char>, i: int, k: CharClass)
    requires
        0 <= i <= s.len(),
    ensures
        run_end(s.skip(i), 0, k) == run_end(s, i, k) - i,
{
    lemma_run_end(s, i, k);
    let m = run_end(s, i, k);
    assert(forall|j: int| 0 <= j < s.skip(i).len() ==> s.skip(i)[j] == s[i + j]);
    lemma_run_end_is(s.skip(i), 0, m - i, k);
}

/// Taking one more element of a sequence appends exactly that element.
proof fn lemma_take_one_more<T>(s: Seq<T>, k: int)
    requires
        0 <= k < s.len(),
    ensures
        s.take(k + 1) =~= s.take(k).push(s[k]),
{
}

} // verus!
