//! Reading a responder's evaluation reply: the first non-empty line, with
//! its spaces removed, must equal one of two literal tokens; anything else
//! counts as a request for refinement, flagged as unrecognized so the caller
//! can log the anomaly. The remaining non-empty lines, rejoined with a blank
//! line between them, form the rationale.

use vstd::prelude::*;
use vstd::string::StrSliceExecFns;
use vstd::string::StringExecFns;
use crate::coordinator::Verdict;

verus! {

/// The token that counts as acceptance.
pub open spec fn accept_token() -> Seq<char> {
    "Good"@
}

/// The token that asks for another refinement round.
pub open spec fn refine_token() -> Seq<char> {
    "NeedsRefinement"@
}

/// The separator between rationale lines: a blank line.
pub open spec fn blank_line_sep() -> Seq<char> {
    "\n\n"@
}

/// Keeps a line that has at least one character.
pub open spec fn nonempty_pred() -> spec_fn(Seq<char>) -> bool {
    |l: Seq<char>| l.len() > 0
}

/// Keeps every character but a space.
pub open spec fn not_space() -> spec_fn(char) -> bool {
    |c: char| c != ' '
}

/// Index of the first newline in s, or s.len() when there is none.
pub open spec fn first_newline(s: Seq<char>) -> int
    decreases s.len(),
{
    if s.len() == 0 {
        0
    } else if s[0] == '\n' {
        0
    } else {
        1 + first_newline(s.subrange(1, s.len() as int))
    }
}

/// The lines of s: the maximal runs of characters between newlines, in
/// order, newlines themselves dropped.
pub open spec fn line_split(s: Seq<char>) -> Seq<Seq<char>>
    decreases s.len(),
{
    let i = first_newline(s);
    if 0 <= i < s.len() {
        seq![s.subrange(0, i)] + line_split(s.subrange(i + 1, s.len() as int))
    } else {
        seq![s]
    }
}

/// The non-empty lines of s, in order.
pub open spec fn nonempty_lines(s: Seq<char>) -> Seq<Seq<char>> {
    line_split(s).filter(nonempty_pred())
}

/// l with every space removed.
pub open spec fn despaced(l: Seq<char>) -> Seq<char> {
    l.filter(not_space())
}

/// The given lines joined, with sep between consecutive lines.
pub open spec fn joined_with(ls: Seq<Seq<char>>, sep: Seq<char>) -> Seq<char>
    decreases ls.len(),
{
    if ls.len() == 0 {
        Seq::empty()
    } else if ls.len() == 1 {
        ls[0]
    } else {
        ls[0] + sep + joined_with(ls.drop_first(), sep)
    }
}

proof fn lemma_first_newline_at(s: Seq<char>, i: int)
    requires
        0 <= i <= s.len(),
        forall|j: int| 0 <= j < i ==> s[j] != '\n',
        i < s.len() ==> s[i] == '\n',
    ensures
        first_newline(s) == i,
    decreases i,
{
    if i == 0 {
    } else {
        let tail = s.subrange(1, s.len() as int);
        assert forall|j: int| 0 <= j < i - 1 implies tail[j] != '\n' by {
            assert(tail[j] == s[j + 1]);
        }
        if i - 1 < tail.len() {
            assert(tail[i - 1] == s[i]);
        }
        lemma_first_newline_at(tail, i - 1);
    }
}

proof fn lemma_line_split_step(s: Seq<char>, i: int)
    requires
        0 <= i < s.len(),
        s[i] == '\n',
        forall|j: int| 0 <= j < i ==> s[j] != '\n',
    ensures
        line_split(s) == seq![s.subrange(0, i)] + line_split(s.subrange(i + 1, s.len() as int)),
{
    lemma_first_newline_at(s, i);
}

proof fn lemma_line_split_whole(s: Seq<char>)
    requires
        forall|j: int| 0 <= j < s.len() ==> s[j] != '\n',
    ensures
        line_split(s) == seq![s],
{
    lemma_first_newline_at(s, s.len() as int);
}

/// Filtering past one appended element keeps it exactly when the predicate
/// holds of it.
proof fn lemma_filter_one<A>(s: Seq<A>, x: A, pred: spec_fn(A) -> bool)
    ensures
        pred(x) ==> (s + seq![x]).filter(pred) == s.filter(pred).push(x),
        !pred(x) ==> (s + seq![x]).filter(pred) == s.filter(pred),
{
    reveal(Seq::filter);
    assert((s + seq![x]).drop_last() =~= s);
    assert((s + seq![x]).last() == x);
}

/// Joining one more line appends a separator first unless nothing was
/// joined yet.
proof fn lemma_joined_push(ls: Seq<Seq<char>>, sep: Seq<char>, x: Seq<char>)
    ensures
        ls.len() == 0 ==> joined_with(ls.push(x), sep) == x,
        ls.len() > 0 ==> joined_with(ls.push(x), sep) == joined_with(ls, sep) + sep + x,
    decreases ls.len(),
{
    let whole = ls.push(x);
    if ls.len() == 0 {
        assert(whole[0] == x);
    } else {
        assert(whole[0] == ls[0]);
        assert(whole.drop_first() =~= ls.drop_first().push(x));
        lemma_joined_push(ls.drop_first(), sep, x);
        if ls.len() == 1 {
            assert(joined_with(whole, sep) == whole[0] + sep + joined_with(
                whole.drop_first(),
                sep,
            ));
            assert(joined_with(whole.drop_first(), sep) == x);
            assert(joined_with(ls, sep) == ls[0]);
        } else {
            assert(joined_with(whole, sep) == ls[0] + sep + (joined_with(ls.drop_first(), sep)
                + sep + x));
            assert(ls[0] + sep + (joined_with(ls.drop_first(), sep) + sep + x) =~= (ls[0] + sep
                + joined_with(ls.drop_first(), sep)) + sep + x);
            assert(joined_with(ls, sep) == ls[0] + sep + joined_with(ls.drop_first(), sep));
        }
    }
}

/// Split text into its non-empty lines, each borrowed from text.
fn split_nonempty_lines(text: &str) -> (lines: Vec<&str>)
    ensures
        lines.deep_view() == nonempty_lines(text@),
{
    let n = text.unicode_len();
    let mut lines: Vec<&str> = Vec::new();
    let mut start: usize = 0;
    let mut i: usize = 0;
    let ghost mut done: Seq<Seq<char>> = Seq::empty();
    proof {
        assert(text@.subrange(0, n as int) =~= text@);
        assert(done + line_split(text@.subrange(0, n as int)) =~= line_split(text@));
        assert(Seq::<Seq<char>>::empty().filter(nonempty_pred()) =~= Seq::<Seq<char>>::empty())
            by {
            reveal(Seq::filter);
        }
        assert(lines.deep_view() =~= Seq::<Seq<char>>::empty());
    }
    while i < n
        invariant
            n == text@.len(),
            start <= i <= n,
            forall|j: int| start <= j < i ==> text@[j] != '\n',
            line_split(text@) == done + line_split(text@.subrange(start as int, n as int)),
            lines.deep_view() == done.filter(nonempty_pred()),
        decreases n - i,
    {
        let c = text.get_char(i);
        if c == '\n' {
            let ghost suffix = text@.subrange(start as int, n as int);
            let ghost line = text@.subrange(start as int, i as int);
            proof {
                assert forall|j: int| 0 <= j < i - start implies suffix[j] != '\n' by {
                    assert(suffix[j] == text@[start + j]);
                }
                assert(suffix[i - start] == text@[i as int]);
                lemma_line_split_step(suffix, i - start);
                assert(suffix.subrange(0, i - start) =~= line);
                assert(suffix.subrange(i - start + 1, suffix.len() as int) =~= text@.subrange(
                    i as int + 1,
                    n as int,
                ));
                assert(done + (seq![line] + line_split(text@.subrange(i as int + 1, n as int)))
                    =~= (done + seq![line]) + line_split(text@.subrange(i as int + 1, n as int)));
                lemma_filter_one(done, line, nonempty_pred());
            }
            if i > start {
                let piece = text.substring_char(start, i);
                let ghost prior = lines.deep_view();
                lines.push(piece);
                proof {
                    assert(lines.deep_view() =~= prior.push(line));
                }
            }
            proof {
                done = done + seq![line];
            }
            start = i + 1;
        }
        i += 1;
    }
    let ghost tail = text@.subrange(start as int, n as int);
    proof {
        assert forall|j: int| 0 <= j < tail.len() implies tail[j] != '\n' by {
            assert(tail[j] == text@[start + j]);
        }
        lemma_line_split_whole(tail);
        lemma_filter_one(done, tail, nonempty_pred());
    }
    if n > start {
        let piece = text.substring_char(start, n);
        let ghost prior = lines.deep_view();
        lines.push(piece);
        proof {
            assert(lines.deep_view() =~= prior.push(tail));
        }
    }
    proof {
        assert(nonempty_lines(text@) == (done + seq![tail]).filter(nonempty_pred()));
    }
    lines
}

/// l with every space removed, as loose characters.
fn strip_spaces(line: &str) -> (r: Vec<char>)
    ensures
        r@ == despaced(line@),
{
    let n = line.unicode_len();
    let mut out: Vec<char> = Vec::new();
    let mut i: usize = 0;
    proof {
        assert(line@.subrange(0, 0).filter(not_space()) =~= Seq::<char>::empty()) by {
            reveal(Seq::filter);
        }
    }
    while i < n
        invariant
            n == line@.len(),
            i <= n,
            out@ == line@.subrange(0, i as int).filter(not_space()),
        decreases n - i,
    {
        let c = line.get_char(i);
        proof {
            assert(line@.subrange(0, i as int + 1) =~= line@.subrange(0, i as int) + seq![
                line@[i as int],
            ]);
            lemma_filter_one(line@.subrange(0, i as int), line@[i as int], not_space());
        }
        if c != ' ' {
            out.push(c);
        }
        i += 1;
    }
    proof {
        assert(line@.subrange(0, n as int) =~= line@);
    }
    out
}

/// Whether the stripped characters spell exactly the given token.
fn chars_match(chars: &Vec<char>, token: &str) -> (r: bool)
    ensures
        r == (chars@ == token@),
{
    let m = token.unicode_len();
    if chars.len() != m {
        return false;
    }
    let mut i: usize = 0;
    while i < m
        invariant
            m == token@.len(),
            chars@.len() == m,
            i <= m,
            forall|j: int| 0 <= j < i ==> chars@[j] == token@[j],
        decreases m - i,
    {
        if chars[i] != token.get_char(i) {
            return false;
        }
        i += 1;
    }
    proof {
        assert(chars@ =~= token@);
    }
    true
}

/// Join the lines from the given position on, a blank line between them.
fn join_from(lines: &Vec<&str>, from: usize) -> (r: String)
    requires
        from <= lines@.len(),
    ensures
        r@ == joined_with(lines.deep_view().skip(from as int), blank_line_sep()),
{
    let mut out = String::new();
    let mut i: usize = from;
    proof {
        assert(lines.deep_view().subrange(from as int, from as int) =~= Seq::<Seq<char>>::empty());
    }
    while i < lines.len()
        invariant
            from <= i <= lines@.len(),
            lines@.len() == lines.deep_view().len(),
            out@ == joined_with(lines.deep_view().subrange(from as int, i as int), blank_line_sep()),
        decreases lines@.len() - i,
    {
        let ghost dv = lines.deep_view();
        let ghost pre = dv.subrange(from as int, i as int);
        if i > from {
            out.append("\n\n");
        }
        out.append(lines[i]);
        proof {
            assert(dv.subrange(from as int, i as int + 1) =~= pre.push(dv[i as int]));
            lemma_joined_push(pre, blank_line_sep(), dv[i as int]);
            if i == from {
                assert(out@ =~= dv[i as int]);
            }
        }
        i += 1;
    }
    proof {
        assert(lines.deep_view().subrange(from as int, lines.deep_view().len() as int)
            =~= lines.deep_view().skip(from as int));
    }
    out
}

/// The outcome of reading one evaluation reply.
pub struct ParsedEvaluation {
    pub verdict: Verdict,
    pub rationale: String,
    pub recognized: bool,
}

/// Read an evaluation reply. `None` means the reply held no usable text at
/// all (no non-empty line), which aborts the operation. Otherwise the verdict
/// comes from the first non-empty line with its spaces dropped: the accept
/// token accepts, anything else asks for refinement, and `recognized` says
/// whether that line was one of the two literal tokens, so that an ambiguous
/// reply can be logged while still failing safe. The remaining non-empty
/// lines, rejoined with a blank line between them, form the rationale.
pub fn parse_evaluation(text: &str) -> (r: Option<ParsedEvaluation>)
    ensures
        r is None <==> nonempty_lines(text@).len() == 0,
        r matches Some(p) ==> ({
            let ls = nonempty_lines(text@);
            let head = despaced(ls[0]);
            &&& p.recognized == (head == accept_token() || head == refine_token())
            &&& p.verdict == (if head == accept_token() {
                Verdict::Accept
            } else {
                Verdict::NeedsRefinement
            })
            &&& p.rationale@ == joined_with(ls.drop_first(), blank_line_sep())
        }),
{
    let lines = split_nonempty_lines(text);
    if lines.len() == 0 {
        return None;
    }
    let stripped = strip_spaces(lines[0]);
    let accepted = chars_match(&stripped, "Good");
    let refused = chars_match(&stripped, "NeedsRefinement");
    let verdict = if accepted {
        Verdict::Accept
    } else {
        Verdict::NeedsRefinement
    };
    let rationale = join_from(&lines, 1);
    proof {
        assert(lines.deep_view()[0] == nonempty_lines(text@)[0]);
        assert(lines.deep_view().skip(1) =~= nonempty_lines(text@).drop_first());
    }
    Some(ParsedEvaluation { verdict, rationale, recognized: accepted || refused })
}

} // verus!
