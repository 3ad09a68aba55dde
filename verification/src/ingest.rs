//! Token source ingestion: normalize line endings, split text into lines,
//! classify the result as word-per-line or flowing paragraph text, and build
//! the token sequence accordingly.

use vstd::prelude::*;

verus! {

/// A character with the Unicode `White_Space` property, the set that
/// `str::trim` and `str::split_whitespace` split on.
pub open spec fn is_space(c: char) -> bool {
    c == ' ' || c == '\t' || c == '\n' || c == '\r' || c == '\u{000B}' || c == '\u{000C}'
        || c == '\u{0085}' || c == '\u{00A0}' || c == '\u{1680}'
        || (0x2000 <= c as u32 && c as u32 <= 0x200A)
        || c == '\u{2028}' || c == '\u{2029}' || c == '\u{202F}' || c == '\u{205F}'
        || c == '\u{3000}'
}

pub fn is_space_char(c: char) -> (b: bool)
    ensures
        b == is_space(c),
{
    c == ' ' || c == '\t' || c == '\n' || c == '\r' || c == '\u{000B}' || c == '\u{000C}'
        || c == '\u{0085}' || c == '\u{00A0}' || c == '\u{1680}'
        || (0x2000 <= c as u32 && c as u32 <= 0x200A)
        || c == '\u{2028}' || c == '\u{2029}' || c == '\u{202F}' || c == '\u{205F}'
        || c == '\u{3000}'
}

/// The sequence with its leading whitespace removed.
pub open spec fn trim_front(s: Seq<char>) -> Seq<char>
    decreases s.len(),
{
    if s.len() > 0 && is_space(s[0]) {
        trim_front(s.drop_first())
    } else {
        s
    }
}

/// The sequence with its trailing whitespace removed.
pub open spec fn trim_back(s: Seq<char>) -> Seq<char>
    decreases s.len(),
{
    if s.len() > 0 && is_space(s.last()) {
        trim_back(s.drop_last())
    } else {
        s
    }
}

/// The sequence with both leading and trailing whitespace removed, as
/// `str::trim` produces.
pub open spec fn spec_trim(s: Seq<char>) -> Seq<char> {
    trim_back(trim_front(s))
}

proof fn lemma_trim_front_skip(s: Seq<char>, a: int)
    requires
        0 <= a <= s.len(),
        forall|i: int| 0 <= i < a ==> is_space(s[i]),
        a < s.len() ==> !is_space(s[a]),
    ensures
        trim_front(s) == s.skip(a),
    decreases a,
{
    if a == 0 {
        assert(s.skip(0) =~= s);
    } else {
        lemma_trim_front_skip(s.drop_first(), a - 1);
        assert(s.drop_first().skip(a - 1) =~= s.skip(a));
    }
}

proof fn lemma_trim_back_take(s: Seq<char>, b: int)
    requires
        0 <= b <= s.len(),
        forall|i: int| b <= i < s.len() ==> is_space(s[i]),
        b > 0 ==> !is_space(s[b - 1]),
    ensures
        trim_back(s) == s.take(b),
    decreases s.len(),
{
    if b == s.len() {
        assert(s.take(b) =~= s);
    } else {
        assert(is_space(s.last()));
        lemma_trim_back_take(s.drop_last(), b);
        assert(s.drop_last().take(b) =~= s.take(b));
    }
}

/// The views of a sequence of strings.
pub open spec fn views(v: Seq<String>) -> Seq<Seq<char>> {
    v.map_values(|x: String| x@)
}

pub proof fn lemma_views_push(v: Seq<String>, x: String)
    ensures
        views(v.push(x)) == views(v).push(x@),
{
    assert(views(v.push(x)) =~= views(v).push(x@));
}

/// The lines of a text, where `\r\n`, `\n` and a lone `\r` all separate
/// lines.  A text with no separator is one line; every separator ends the
/// line before it, so a text with `k` separators has `k + 1` lines.
pub open spec fn spec_lines(s: Seq<char>) -> Seq<Seq<char>>
    decreases s.len(),
{
    if s.len() == 0 {
        seq![Seq::<char>::empty()]
    } else if s.len() >= 2 && s[0] == '\r' && s[1] == '\n' {
        seq![Seq::<char>::empty()] + spec_lines(s.skip(2))
    } else if s[0] == '\n' || s[0] == '\r' {
        seq![Seq::<char>::empty()] + spec_lines(s.skip(1))
    } else {
        let rest = spec_lines(s.skip(1));
        seq![seq![s[0]] + rest[0]] + rest.skip(1)
    }
}

pub proof fn lemma_spec_lines_len(s: Seq<char>)
    ensures
        spec_lines(s).len() >= 1,
    decreases s.len(),
{
    if s.len() == 0 {
    } else if s.len() >= 2 && s[0] == '\r' && s[1] == '\n' {
        lemma_spec_lines_len(s.skip(2));
    } else {
        lemma_spec_lines_len(s.skip(1));
    }
}

/// Split a text into lines, treating `\r\n`, `\n` and a lone `\r` uniformly
/// as line separators.
pub fn split_lines(text: &str) -> (r: Vec<String>)
    ensures
        views(r@) == spec_lines(text@),
{
    let n = text.unicode_len();
    let mut out: Vec<String> = Vec::new();
    let mut start: usize = 0;
    let mut i: usize = 0;
    proof {
        lemma_spec_lines_len(text@);
        assert(text@.skip(0) =~= text@);
        assert(views(out@) + seq![text@.subrange(0, 0) + spec_lines(text@)[0]] + spec_lines(
            text@,
        ).skip(1) =~~= spec_lines(text@));
    }
    while i < n
        invariant
            start <= i <= n,
            n == text@.len(),
            spec_lines(text@) == views(out@) + seq![
                text@.subrange(start as int, i as int) + spec_lines(text@.skip(i as int))[0],
            ] + spec_lines(text@.skip(i as int)).skip(1),
        decreases n - i,
    {
        let ghost s = text@;
        let c = text.get_char(i);
        assert(s.skip(i as int)[0] == s[i as int]);
        if c == '\r' && i + 1 < n && text.get_char(i + 1) == '\n' {
            let line = String::from_str(text.substring_char(start, i));
            proof {
                let rest = spec_lines(s.skip(i as int + 2));
                assert(s.skip(i as int)[1] == s[i as int + 1]);
                assert(s.skip(i as int).skip(2) =~= s.skip(i as int + 2));
                assert(spec_lines(s.skip(i as int)) == seq![Seq::<char>::empty()] + rest);
                lemma_spec_lines_len(s.skip(i as int + 2));
                lemma_views_push(out@, line);
                assert(views(out@) + seq![
                    s.subrange(start as int, i as int) + spec_lines(s.skip(i as int))[0],
                ] + spec_lines(s.skip(i as int)).skip(1) =~~= views(out@).push(
                    s.subrange(start as int, i as int),
                ) + seq![s.subrange(i as int + 2, i as int + 2) + rest[0]] + rest.skip(1));
            }
            out.push(line);
            i = i + 2;
            start = i;
        } else if c == '\n' || c == '\r' {
            let line = String::from_str(text.substring_char(start, i));
            proof {
                let rest = spec_lines(s.skip(i as int + 1));
                assert(s.skip(i as int).skip(1) =~= s.skip(i as int + 1));
                assert(spec_lines(s.skip(i as int)) == seq![Seq::<char>::empty()] + rest);
                lemma_spec_lines_len(s.skip(i as int + 1));
                lemma_views_push(out@, line);
                assert(views(out@) + seq![
                    s.subrange(start as int, i as int) + spec_lines(s.skip(i as int))[0],
                ] + spec_lines(s.skip(i as int)).skip(1) =~~= views(out@).push(
                    s.subrange(start as int, i as int),
                ) + seq![s.subrange(i as int + 1, i as int + 1) + rest[0]] + rest.skip(1));
            }
            out.push(line);
            i = i + 1;
            start = i;
        } else {
            proof {
                let rest = spec_lines(s.skip(i as int + 1));
                assert(s.skip(i as int).skip(1) =~= s.skip(i as int + 1));
                assert(spec_lines(s.skip(i as int)) == seq![seq![s[i as int]] + rest[0]]
                    + rest.skip(1));
                lemma_spec_lines_len(s.skip(i as int + 1));
                assert(s.subrange(start as int, i as int) + (seq![s[i as int]] + rest[0])
                    =~= s.subrange(start as int, i as int + 1) + rest[0]);
                assert(views(out@) + seq![
                    s.subrange(start as int, i as int) + spec_lines(s.skip(i as int))[0],
                ] + spec_lines(s.skip(i as int)).skip(1) =~~= views(out@) + seq![
                    s.subrange(start as int, i as int + 1) + rest[0],
                ] + rest.skip(1));
            }
            i = i + 1;
        }
    }
    let line = String::from_str(text.substring_char(start, n));
    proof {
        assert(text@.skip(n as int) =~= Seq::<char>::empty());
        assert(spec_lines(text@.skip(n as int)) == seq![Seq::<char>::empty()]);
        lemma_views_push(out@, line);
        assert(views(out@) + seq![
            text@.subrange(start as int, n as int) + spec_lines(text@.skip(n as int))[0],
        ] + spec_lines(text@.skip(n as int)).skip(1) =~~= views(out@).push(
            text@.subrange(start as int, n as int),
        ));
    }
    out.push(line);
    out
}

/// Trimming as `str::trim` does: the text between the first and the last
/// character that is not whitespace.
pub fn trim_str(s: &str) -> (r: String)
    ensures
        r@ == spec_trim(s@),
{
    let n = s.unicode_len();
    let mut a: usize = 0;
    while a < n
        invariant
            0 <= a <= n,
            n == s@.len(),
            forall|i: int| 0 <= i < a ==> is_space(s@[i]),
        ensures
            0 <= a <= n,
            forall|i: int| 0 <= i < a ==> is_space(s@[i]),
            a < n ==> !is_space(s@[a as int]),
        decreases n - a,
    {
        if !is_space_char(s.get_char(a)) {
            break ;
        }
        a = a + 1;
    }
    let mut b: usize = n;
    while b > a
        invariant
            a <= b <= n,
            n == s@.len(),
            forall|i: int| b <= i < n ==> is_space(s@[i]),
        ensures
            a <= b <= n,
            forall|i: int| b <= i < n ==> is_space(s@[i]),
            b > a ==> !is_space(s@[b - 1]),
        decreases b,
    {
        if !is_space_char(s.get_char(b - 1)) {
            break ;
        }
        b = b - 1;
    }
    let r = s.substring_char(a, b);
    proof {
        lemma_trim_front_skip(s@, a as int);
        if b == a {
            // everything from a on is whitespace, so the trimmed text is empty
            lemma_trim_back_take(s@.skip(a as int), 0);
        } else {
            lemma_trim_back_take(s@.skip(a as int), b - a);
        }
        assert(s@.skip(a as int).take(b - a) =~= s@.subrange(a as int, b as int));
    }
    String::from_str(r)
}

/// No character of the sequence is whitespace.
pub open spec fn no_space(s: Seq<char>) -> bool {
    forall|i: int| 0 <= i < s.len() ==> !is_space(s[i])
}

/// A text is word-per-line when every non-blank line, after trimming,
/// contains at most one whitespace-delimited piece; equivalently, when no
/// trimmed line contains whitespace.
pub open spec fn spec_word_per_line(lines: Seq<Seq<char>>) -> bool {
    forall|i: int| 0 <= i < lines.len() ==> no_space(#[trigger] spec_trim(lines[i]))
}

fn has_space(s: &str) -> (b: bool)
    ensures
        b == !no_space(s@),
{
    let n = s.unicode_len();
    let mut i: usize = 0;
    while i < n
        invariant
            0 <= i <= n,
            n == s@.len(),
            forall|j: int| 0 <= j < i ==> !is_space(s@[j]),
        ensures
            0 <= i <= n,
            forall|j: int| 0 <= j < i ==> !is_space(s@[j]),
            i < n ==> is_space(s@[i as int]),
        decreases n - i,
    {
        if is_space_char(s.get_char(i)) {
            break ;
        }
        i = i + 1;
    }
    i < n
}

/// Decide whether every non-blank line holds at most one
/// whitespace-delimited piece.
pub fn is_word_per_line(lines: &Vec<String>) -> (b: bool)
    ensures
        b == spec_word_per_line(views(lines@)),
{
    let mut i: usize = 0;
    while i < lines.len()
        invariant
            0 <= i <= lines@.len(),
            forall|j: int| 0 <= j < i ==> no_space(#[trigger] spec_trim(views(lines@)[j])),
        ensures
            0 <= i <= lines@.len(),
            forall|j: int| 0 <= j < i ==> no_space(#[trigger] spec_trim(views(lines@)[j])),
            i < lines@.len() ==> !no_space(spec_trim(views(lines@)[i as int])),
        decreases lines@.len() - i,
    {
        let t = trim_str(lines[i].as_str());
        if has_space(t.as_str()) {
            break ;
        }
        i = i + 1;
    }
    i == lines.len()
}

/// The token sequence in word-per-line mode: the non-blank lines, each
/// trimmed, in their original order.
pub open spec fn spec_word_tokens(lines: Seq<Seq<char>>) -> Seq<Seq<char>>
    decreases lines.len(),
{
    if lines.len() == 0 {
        Seq::<Seq<char>>::empty()
    } else {
        let rest = spec_word_tokens(lines.drop_last());
        let t = spec_trim(lines.last());
        if t.len() == 0 {
            rest
        } else {
            rest.push(t)
        }
    }
}

/// The non-blank lines of a text, untrimmed, in their original order.
pub open spec fn spec_non_blank(lines: Seq<Seq<char>>) -> Seq<Seq<char>>
    decreases lines.len(),
{
    if lines.len() == 0 {
        Seq::<Seq<char>>::empty()
    } else {
        let rest = spec_non_blank(lines.drop_last());
        if spec_trim(lines.last()).len() == 0 {
            rest
        } else {
            rest.push(lines.last())
        }
    }
}

/// The fixed separator that joins lines in paragraph mode.
pub open spec fn sep() -> Seq<char> {
    seq![' ', ' ', ' ']
}

/// Lines joined with the fixed separator.
pub open spec fn spec_join(lines: Seq<Seq<char>>) -> Seq<char>
    decreases lines.len(),
{
    if lines.len() == 0 {
        Seq::<char>::empty()
    } else if lines.len() == 1 {
        lines[0]
    } else {
        spec_join(lines.drop_last()) + sep() + lines.last()
    }
}

/// The single token of paragraph mode: all non-blank lines joined with the
/// fixed separator.
pub open spec fn spec_paragraph(lines: Seq<Seq<char>>) -> Seq<char> {
    spec_join(spec_non_blank(lines))
}

/// Build the word-per-line token sequence.
fn word_tokens(lines: &Vec<String>) -> (r: Vec<String>)
    ensures
        views(r@) == spec_word_tokens(views(lines@)),
{
    let mut out: Vec<String> = Vec::new();
    let mut i: usize = 0;
    proof {
        assert(views(lines@).take(0) =~= Seq::<Seq<char>>::empty());
        assert(views(out@) =~= Seq::<Seq<char>>::empty());
    }
    while i < lines.len()
        invariant
            0 <= i <= lines@.len(),
            views(out@) == spec_word_tokens(views(lines@).take(i as int)),
        decreases lines@.len() - i,
    {
        let t = trim_str(lines[i].as_str());
        proof {
            let vl = views(lines@);
            assert(vl.take(i as int + 1).drop_last() =~= vl.take(i as int));
            assert(vl.take(i as int + 1).last() == vl[i as int]);
            if spec_trim(vl[i as int]).len() != 0 {
                lemma_views_push(out@, t);
            }
        }
        if t.unicode_len() > 0 {
            out.push(t);
        }
        i = i + 1;
    }
    proof {
        assert(views(lines@).take(lines@.len() as int) =~= views(lines@));
    }
    out
}

/// Join the non-blank lines with the fixed three-space separator.
fn join_non_blank(lines: &Vec<String>) -> (r: String)
    ensures
        r@ == spec_paragraph(views(lines@)),
{
    let mut out = String::new();
    let mut first = true;
    let mut i: usize = 0;
    proof {
        assert(views(lines@).take(0) =~= Seq::<Seq<char>>::empty());
    }
    while i < lines.len()
        invariant
            0 <= i <= lines@.len(),
            out@ == spec_join(spec_non_blank(views(lines@).take(i as int))),
            first == (spec_non_blank(views(lines@).take(i as int)).len() == 0),
        decreases lines@.len() - i,
    {
        let t = trim_str(lines[i].as_str());
        proof {
            let vl = views(lines@);
            assert(vl.take(i as int + 1).drop_last() =~= vl.take(i as int));
            assert(vl.take(i as int + 1).last() == vl[i as int]);
        }
        if t.unicode_len() > 0 {
            let ghost prev = spec_non_blank(views(lines@).take(i as int));
            if !first {
                out.append("   ");
                proof {
                    reveal_strlit("   ");
                    assert("   "@ =~= sep());
                }
            }
            out.append(lines[i].as_str());
            proof {
                let vl = views(lines@);
                let cur = spec_non_blank(vl.take(i as int + 1));
                assert(cur == prev.push(vl[i as int]));
                if prev.len() == 0 {
                    assert(cur.len() == 1);
                    assert(cur[0] == vl[i as int]);
                    assert(spec_join(cur) == vl[i as int]);
                } else {
                    assert(cur.drop_last() =~= prev);
                    assert(cur.last() == vl[i as int]);
                    assert(spec_join(cur) == spec_join(prev) + sep() + vl[i as int]);
                }
            }
            first = false;
        }
        i = i + 1;
    }
    proof {
        assert(views(lines@).take(lines@.len() as int) =~= views(lines@));
    }
    out
}

/// What ingesting a text yields: the token sequence and whether the text is
/// paragraph-flow (`true`) or word-per-line (`false`).
pub open spec fn spec_ingest(s: Seq<char>) -> (Seq<Seq<char>>, bool) {
    let ls = spec_lines(s);
    if spec_word_per_line(ls) {
        (spec_word_tokens(ls), false)
    } else {
        (seq![spec_paragraph(ls)], true)
    }
}

/// Ingest a text: split it into lines under uniform line-ending handling,
/// then either keep the trimmed non-blank lines as separate tokens
/// (word-per-line) or join all non-blank lines into one flowing token
/// (paragraph mode).
pub fn ingest_text(text: &str) -> (r: (Vec<String>, bool))
    ensures
        views(r.0@) == spec_ingest(text@).0,
        r.1 == spec_ingest(text@).1,
{
    let lines = split_lines(text);
    if is_word_per_line(&lines) {
        (word_tokens(&lines), false)
    } else {
        let token = join_non_blank(&lines);
        let mut out: Vec<String> = Vec::new();
        proof {
            lemma_views_push(out@, token);
        }
        out.push(token);
        proof {
            assert(views(out@) =~= seq![spec_paragraph(spec_lines(text@))]);
        }
        (out, true)
    }
}

} // verus!
