//! Lexical splitting of one input line into typed tokens.
//!
//! A line is cut at runs of whitespace; the first segment names the command,
//! the second the matrix, and the remaining segments are rejoined with single
//! spaces into the argument text.

use vstd::prelude::*;
use crate::text::is_space_char;
use vstd::string::StrSliceExecFns;
use vstd::string::StringExecFns;

verus! {

/// A typed fragment of one input line.
#[derive(Debug, PartialEq)]
pub enum Token {
    Command(String),
    MatrixName(String),
    Args(String),
}

/// Failures of lexing and parsing an input line.
#[derive(Clone, Copy, Debug, PartialEq, Eq, Structural)]
pub enum ParseError {
    /// The token shapes or the matrix name are not acceptable.
    InvalidFormat,
    /// The line holds no second segment to name a matrix.
    MissingMatrix,
    /// The line holds no segments at all.
    MissingCommand,
}

/// First position at or after `i` that holds no whitespace, or the end.
pub open spec fn space_end(s: Seq<char>, i: int) -> int
    decreases s.len() - i,
{
    if i < 0 || i >= s.len() || !is_space_char(s[i]) {
        i
    } else {
        space_end(s, i + 1)
    }
}

pub proof fn lemma_space_end_bounds(s: Seq<char>, i: int)
    requires
        0 <= i <= s.len(),
    ensures
        i <= space_end(s, i) <= s.len(),
        space_end(s, i) < s.len() ==> !is_space_char(s[space_end(s, i)]),
    decreases s.len() - i,
{
    if !(i >= s.len() || !is_space_char(s[i])) {
        lemma_space_end_bounds(s, i + 1);
    }
}

/// First position at or after `i` that holds whitespace, or the end.
pub open spec fn word_end(s: Seq<char>, i: int) -> int
    decreases s.len() - i,
{
    if i < 0 || i >= s.len() || is_space_char(s[i]) {
        i
    } else {
        word_end(s, i + 1)
    }
}

pub proof fn lemma_word_end_bounds(s: Seq<char>, i: int)
    requires
        0 <= i <= s.len(),
    ensures
        i <= word_end(s, i) <= s.len(),
    decreases s.len() - i,
{
    if !(i >= s.len() || is_space_char(s[i])) {
        lemma_word_end_bounds(s, i + 1);
    }
}

/// The whitespace-separated segments of `s` from position `i` on.
pub open spec fn segments_from(s: Seq<char>, i: int) -> Seq<Seq<char>>
    decreases s.len() - i,
    via segments_from_decreases
{
    if i < 0 || space_end(s, i) >= s.len() {
        Seq::empty()
    } else {
        let j = space_end(s, i);
        seq![s.subrange(j, word_end(s, j))] + segments_from(s, word_end(s, j))
    }
}

#[via_fn]
proof fn segments_from_decreases(s: Seq<char>, i: int) {
    if !(i < 0 || space_end(s, i) >= s.len()) {
        lemma_space_end_bounds(s, i);
        let j = space_end(s, i);
        assert(!is_space_char(s[j]));
        assert(word_end(s, j) == word_end(s, j + 1));
        lemma_word_end_bounds(s, j + 1);
    }
}

/// The whitespace-separated segments of a whole line.
pub open spec fn segments_of(s: Seq<char>) -> Seq<Seq<char>> {
    segments_from(s, 0)
}

/// The segments rejoined with one space between each pair.
pub open spec fn join_spaces(ss: Seq<Seq<char>>) -> Seq<char>
    decreases ss.len(),
{
    if ss.len() == 0 {
        Seq::empty()
    } else if ss.len() == 1 {
        ss[0]
    } else {
        ss[0] + seq![' '] + join_spaces(ss.drop_first())
    }
}

/// The argument text of a line: all segments after the second, rejoined, or
/// empty text where there are none.
pub open spec fn args_text(ss: Seq<Seq<char>>) -> Seq<char> {
    if ss.len() <= 2 {
        Seq::empty()
    } else {
        join_spaces(ss.skip(2))
    }
}

proof fn lemma_join_push(ss: Seq<Seq<char>>, w: Seq<char>)
    requires
        ss.len() >= 1,
    ensures
        join_spaces(ss.push(w)) == join_spaces(ss) + seq![' '] + w,
    decreases ss.len(),
{
    if ss.len() == 1 {
        let t = ss.push(w);
        assert(t.drop_first() =~= seq![w]);
        assert(join_spaces(seq![w]) == w);
        assert(join_spaces(t) == t[0] + seq![' '] + join_spaces(t.drop_first()));
        assert(t[0] == ss[0]);
        assert(join_spaces(ss) == ss[0]);
    } else {
        lemma_join_push(ss.drop_first(), w);
        assert(ss.push(w).drop_first() =~= ss.drop_first().push(w));
        assert(join_spaces(ss.push(w)) == ss[0] + seq![' '] + join_spaces(ss.drop_first().push(w)));
        assert(join_spaces(ss.push(w)) =~= join_spaces(ss) + seq![' '] + w);
    }
}

/// Scans forward from `start` to the first whitespace character.
fn scan_word(s: &str, start: usize) -> (j: usize)
    requires
        start <= s@.len(),
    ensures
        j == word_end(s@, start as int),
        start <= j <= s@.len(),
{
    let n = s.unicode_len();
    let mut j = start;
    while j < n
        invariant
            start <= j <= n,
            n == s@.len(),
            word_end(s@, start as int) == word_end(s@, j as int),
        decreases n - j,
    {
        let d = s.get_char(j);
        if crate::text::is_space(d) {
            return j;
        }
        j += 1;
    }
    j
}

/// Collects the whitespace-separated segments of `s`.
fn split_segments(s: &str) -> (res: Vec<String>)
    ensures
        res.deep_view() == segments_of(s@),
{
    let n = s.unicode_len();
    let mut res: Vec<String> = Vec::new();
    let mut i: usize = 0;
    while i < n
        invariant
            n == s@.len(),
            i <= n,
            res.deep_view() + segments_from(s@, i as int) == segments_of(s@),
        decreases n - i,
    {
        let c = s.get_char(i);
        if crate::text::is_space(c) {
            proof {
                assert(space_end(s@, i as int) == space_end(s@, i + 1));
            }
            i += 1;
        } else {
            proof {
                assert(space_end(s@, i as int) == i);
            }
            let e = scan_word(s, i);
            let ghost prev = res.deep_view();
            let seg = s.substring_char(i, e).to_owned();
            res.push(seg);
            proof {
                assert(res.deep_view() =~= prev.push(seg@));
                assert(segments_from(s@, i as int) == seq![seg@] + segments_from(s@, e as int));
                assert(res.deep_view() + segments_from(s@, e as int) =~= prev + segments_from(
                    s@,
                    i as int,
                ));
            }
            i = e;
        }
    }
    proof {
        assert(space_end(s@, n as int) == n);
        assert(res.deep_view() + segments_from(s@, n as int) =~= res.deep_view());
    }
    res
}

/// Splits one raw input line into its three tokens: the command keyword, the
/// matrix name, and the remaining text rejoined with single spaces.
pub fn lexer(input: &str) -> (r: Result<Vec<Token>, ParseError>)
    ensures
        r == Err::<Vec<Token>, ParseError>(ParseError::MissingCommand) <==> segments_of(
            input@,
        ).len() == 0,
        r == Err::<Vec<Token>, ParseError>(ParseError::MissingMatrix) <==> segments_of(
            input@,
        ).len() == 1,
        r is Ok <==> segments_of(input@).len() >= 2,
        r matches Ok(toks) ==> {
            &&& toks@.len() == 3
            &&& toks@[0] matches Token::Command(c) && c@ == segments_of(input@)[0]
            &&& toks@[1] matches Token::MatrixName(m) && m@ == segments_of(input@)[1]
            &&& toks@[2] matches Token::Args(a) && a@ == args_text(segments_of(input@))
        },
{
    let ghost sv = segments_of(input@);
    let segs = split_segments(input);
    if segs.len() == 0 {
        return Err(ParseError::MissingCommand);
    }
    if segs.len() == 1 {
        return Err(ParseError::MissingMatrix);
    }
    let command = segs[0].clone();
    let matrix_name = segs[1].clone();
    let args = if segs.len() > 2 {
        let mut text = segs[2].clone();
        let mut k: usize = 3;
        while k < segs.len()
            invariant
                segs.deep_view() == sv,
                3 <= k <= segs@.len(),
                sv.len() == segs@.len(),
                sv.len() > 2,
                text@ == join_spaces(sv.subrange(2, k as int)),
            decreases segs@.len() - k,
        {
            proof {
                reveal_strlit(" ");
            }
            text.append(" ");
            text.append(segs[k].as_str());
            proof {
                assert(sv.subrange(2, k + 1) =~= sv.subrange(2, k as int).push(sv[k as int]));
                lemma_join_push(sv.subrange(2, k as int), sv[k as int]);
                assert(" "@ =~= seq![' ']);
                assert(text@ =~= join_spaces(sv.subrange(2, k + 1)));
            }
            k += 1;
        }
        proof {
            assert(sv.subrange(2, sv.len() as int) =~= sv.skip(2));
            assert(sv.subrange(2, 3) =~= seq![sv[2]]);
        }
        text
    } else {
        String::new()
    };
    assert(args@ == args_text(sv));
    let mut toks: Vec<Token> = Vec::new();
    toks.push(Token::Command(command));
    toks.push(Token::MatrixName(matrix_name));
    toks.push(Token::Args(args));
    Ok(toks)
}

} // verus!
