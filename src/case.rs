//! Case rewriting of text: lower, upper, sentence and title case.
use vstd::prelude::*;

verus! {

/// What `str::to_lowercase` returns.
pub uninterp spec fn lower_of(s: Seq<char>) -> Seq<char>;

/// What `str::to_uppercase` returns.
pub uninterp spec fn upper_of(s: Seq<char>) -> Seq<char>;

/// Relies on `str::to_lowercase`: the result depends on the characters alone.
#[verifier::external_body]
fn to_lower(s: &str) -> (r: String)
    ensures
        r@ == lower_of(s@),
{
    s.to_lowercase()
}

/// Relies on `str::to_uppercase`: the result depends on the characters alone.
#[verifier::external_body]
fn to_upper(s: &str) -> (r: String)
    ensures
        r@ == upper_of(s@),
{
    s.to_uppercase()
}

/// Unicode `White_Space`, the set `char::is_whitespace` tests.
pub open spec fn is_space(c: char) -> bool {
    ('\u{9}' <= c && c <= '\u{d}') || c == ' ' || c == '\u{85}' || c == '\u{a0}' || c == '\u{1680}'
        || ('\u{2000}' <= c && c <= '\u{200a}') || c == '\u{2028}' || c == '\u{2029}'
        || c == '\u{202f}' || c == '\u{205f}' || c == '\u{3000}'
}

pub fn is_space_char(c: char) -> (r: bool)
    ensures
        r == is_space(c),
{
    ('\u{9}' <= c && c <= '\u{d}') || c == ' ' || c == '\u{85}' || c == '\u{a0}' || c == '\u{1680}'
        || ('\u{2000}' <= c && c <= '\u{200a}') || c == '\u{2028}' || c == '\u{2029}'
        || c == '\u{202f}' || c == '\u{205f}' || c == '\u{3000}'
}

/// First character upper-cased, the rest lower-cased.
pub open spec fn sentence_of(s: Seq<char>) -> Seq<char> {
    if s.len() == 0 {
        Seq::empty()
    } else {
        upper_of(s.subrange(0, 1)) + lower_of(s.subrange(1, s.len() as int))
    }
}

/// The maximal runs of non-whitespace characters, in order.
pub open spec fn words_of(s: Seq<char>) -> Seq<Seq<char>>
    decreases s.len(),
{
    if s.len() == 0 {
        Seq::empty()
    } else {
        let w = words_of(s.drop_last());
        let c = s.last();
        if is_space(c) {
            w
        } else if s.len() >= 2 && !is_space(s[s.len() - 2]) {
            w.drop_last().push(w.last().push(c))
        } else {
            w.push(seq![c])
        }
    }
}

/// The pieces joined by single spaces.
pub open spec fn join_spaced(ws: Seq<Seq<char>>) -> Seq<char>
    decreases ws.len(),
{
    if ws.len() == 0 {
        Seq::empty()
    } else if ws.len() == 1 {
        ws[0]
    } else {
        join_spaced(ws.drop_last()) + seq![' '] + ws.last()
    }
}

/// Each word in sentence case, joined by single spaces.
pub open spec fn title_of(s: Seq<char>) -> Seq<char> {
    join_spaced(words_of(s).map_values(|w: Seq<char>| sentence_of(w)))
}

pub fn lowercase(s: &str) -> (r: String)
    ensures
        r@ == lower_of(s@),
{
    to_lower(s)
}

pub fn uppercase(s: &str) -> (r: String)
    ensures
        r@ == upper_of(s@),
{
    to_upper(s)
}

/// Upper-cases the first character and lower-cases the rest.
pub fn sentence_case(s: &str) -> (r: String)
    ensures
        r@ == sentence_of(s@),
{
    let n = s.unicode_len();
    if n == 0 {
        return String::new();
    }
    let first = to_upper(s.substring_char(0, 1));
    let rest = to_lower(s.substring_char(1, n));
    first.concat(rest.as_str())
}

/// Splits on whitespace, dropping empty pieces.
fn split_words(s: &str) -> (r: Vec<String>)
    ensures
        r@.map_values(|w: String| w@) == words_of(s@),
{
    let n = s.unicode_len();
    let mut done: Vec<String> = Vec::new();
    let mut start: usize = 0;
    let mut in_word = false;
    let mut i: usize = 0;
    while i < n
        invariant
            n == s@.len(),
            i <= n,
            start <= i,
            in_word <==> (i > 0 && !is_space(s@[i - 1])),
            in_word ==> words_of(s@.subrange(0, i as int)) == done@.map_values(|w: String| w@).push(
                s@.subrange(start as int, i as int),
            ),
            !in_word ==> words_of(s@.subrange(0, i as int)) == done@.map_values(|w: String| w@),
        decreases n - i,
    {
        let c = s.get_char(i);
        let ghost pre = s@.subrange(0, i as int);
        let ghost cur = s@.subrange(0, i as int + 1);
        assert(cur.drop_last() =~= pre);
        assert(cur.last() == c);
        if is_space_char(c) {
            if in_word {
                let w = s.substring_char(start, i).to_string();
                proof {
                    assert(done@.push(w).map_values(|w: String| w@) =~= done@.map_values(
                        |w: String| w@,
                    ).push(w@));
                }
                done.push(w);
                in_word = false;
            }
        } else {
            if in_word {
                proof {
                    assert(cur.len() >= 2);
                    assert(cur[cur.len() - 2] == s@[i - 1]);
                    let w = done@.map_values(|w: String| w@).push(s@.subrange(start as int, i as int));
                    assert(w.drop_last() =~= done@.map_values(|w: String| w@));
                    assert(s@.subrange(start as int, i as int).push(c) =~= s@.subrange(
                        start as int,
                        i as int + 1,
                    ));
                }
            } else {
                start = i;
                in_word = true;
                proof {
                    if cur.len() >= 2 {
                        assert(cur[cur.len() - 2] == s@[i - 1]);
                    }
                    assert(seq![c] =~= s@.subrange(i as int, i as int + 1));
                }
            }
        }
        i += 1;
    }
    if in_word {
        let w = s.substring_char(start, n).to_string();
        proof {
            assert(done@.push(w).map_values(|w: String| w@) =~= done@.map_values(|w: String| w@).push(
                w@,
            ));
        }
        done.push(w);
    }
    proof {
        assert(s@.subrange(0, n as int) =~= s@);
    }
    done
}

/// Sentence case for each whitespace-separated word, the words joined by
/// single spaces.
pub fn title_case(s: &str) -> (r: String)
    ensures
        r@ == title_of(s@),
{
    let words = split_words(s);
    let ghost ws = words@.map_values(|w: String| w@);
    let mut out = String::new();
    let mut i: usize = 0;
    while i < words.len()
        invariant
            ws == words@.map_values(|w: String| w@),
            ws == words_of(s@),
            i <= words@.len(),
            out@ == join_spaced(ws.subrange(0, i as int).map_values(|w: Seq<char>| sentence_of(w))),
        decreases words@.len() - i,
    {
        let piece = sentence_case(words[i].as_str());
        let ghost prev = ws.subrange(0, i as int).map_values(|w: Seq<char>| sentence_of(w));
        let ghost next = ws.subrange(0, i as int + 1).map_values(|w: Seq<char>| sentence_of(w));
        proof {
            assert(next.drop_last() =~= prev);
            assert(next.last() == sentence_of(ws[i as int]));
        }
        let ghost before = out@;
        if i > 0 {
            out.append(" ");
            proof {
                reveal_strlit(" ");
                assert(" "@ =~= seq![' ']);
            }
        }
        out.append(piece.as_str());
        proof {
            if i == 0 {
                assert(out@ =~= next[0]);
            } else {
                assert(out@ =~= before + seq![' '] + piece@);
                assert(join_spaced(next) == join_spaced(next.drop_last()) + seq![' '] + next.last());
            }
        }
        i += 1;
    }
    proof {
        assert(ws.subrange(0, words@.len() as int) =~= ws);
    }
    out
}

} // verus!
