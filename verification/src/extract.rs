//! Extracting the version from a registry response body. The body is
//! read as a sequence of quote-delimited tokens; the value is the
//! token two places after the first token equal to `max_version`,
//! which fits the layout `"max_version":"<value>"`. The value is
//! returned verbatim: escape sequences inside it are not undone.

use vstd::prelude::*;

use crate::error::Error;
use crate::text::{find_char_from, lemma_segments_len, lemma_segments_split, segments, str_eq};

verus! {

/// The quote-delimited tokens of a response body.
pub open spec fn tokens(s: Seq<char>) -> Seq<Seq<char>> {
    segments(s, '"')
}

/// The field name whose value is extracted.
pub open spec fn field_name() -> Seq<char> {
    "max_version"@
}

/// Index of the first token equal to `t`, if any.
pub open spec fn find_token(toks: Seq<Seq<char>>, t: Seq<char>) -> Option<int>
    decreases toks.len(),
{
    if toks.len() == 0 {
        None
    } else if toks[0] == t {
        Some(0)
    } else {
        match find_token(toks.drop_first(), t) {
            Some(i) => Some(i + 1),
            None => None,
        }
    }
}

proof fn lemma_find_token(toks: Seq<Seq<char>>, t: Seq<char>)
    ensures
        match find_token(toks, t) {
            Some(i) => 0 <= i < toks.len() && toks[i] == t && forall|j: int|
                0 <= j < i ==> toks[j] != t,
            None => forall|j: int| 0 <= j < toks.len() ==> toks[j] != t,
        },
    decreases toks.len(),
{
    if toks.len() > 0 && toks[0] != t {
        lemma_find_token(toks.drop_first(), t);
        match find_token(toks.drop_first(), t) {
            Some(i) => {
                assert(toks.drop_first()[i] == toks[i + 1]);
                assert forall|j: int| 0 <= j < i + 1 implies toks[j] != t by {
                    if j > 0 {
                        assert(toks.drop_first()[j - 1] == toks[j]);
                    }
                }
            },
            None => {
                assert forall|j: int| 0 <= j < toks.len() implies toks[j] != t by {
                    if j > 0 {
                        assert(toks.drop_first()[j - 1] == toks[j]);
                    }
                }
            },
        }
    }
}

proof fn lemma_find_token_agrees(toks: Seq<Seq<char>>, t: Seq<char>, r: Option<int>)
    requires
        match r {
            Some(i) => 0 <= i < toks.len() && toks[i] == t && forall|j: int|
                0 <= j < i ==> toks[j] != t,
            None => forall|j: int| 0 <= j < toks.len() ==> toks[j] != t,
        },
    ensures
        find_token(toks, t) == r,
{
    lemma_find_token(toks, t);
}

/// What extraction yields: the token two places after the first
/// `max_version` token, when both exist.
pub open spec fn spec_extract(s: Seq<char>) -> Option<Seq<char>> {
    match find_token(tokens(s), field_name()) {
        Some(i) => if i + 2 < tokens(s).len() {
            Some(tokens(s)[i + 2])
        } else {
            None
        },
        None => None,
    }
}

/// Extract the version text from a response body, or report that the
/// body does not carry the expected field pattern. The value is a raw
/// slice of the body: no unescaping is performed.
pub fn extract<'a>(text: &'a str) -> (r: Result<&'a str, Error>)
    ensures
        match r {
            Ok(t) => spec_extract(text@) == Some(t@),
            Err(e) => spec_extract(text@) is None && e == Error::ParseFailure,
        },
{
    let ghost s = text@;
    let ghost toks = tokens(s);
    let n = text.unicode_len();
    let mut pos: usize = 0;
    let ghost mut gi: int = 0;
    proof {
        assert(s.skip(0) =~= s);
        assert(toks =~~= toks.take(0) + segments(s.skip(0), '"'));
    }
    loop
        invariant
            pos <= n,
            n == s.len(),
            s == text@,
            toks == tokens(s),
            0 <= gi <= toks.len(),
            toks == toks.take(gi) + segments(s.skip(pos as int), '"'),
            forall|k: int| 0 <= k < gi ==> toks[k] != field_name(),
        decreases n - pos,
    {
        let next = find_char_from(text, pos, '"');
        let end = match next {
            Some(i) => i,
            None => n,
        };
        let tok = text.substring_char(pos, end);
        proof {
            lemma_segments_len(s.skip(pos as int), '"');
            assert forall|j: int| 0 <= j < end - pos implies s.skip(pos as int)[j] != '"' by {
                assert(s.skip(pos as int)[j] == s[j + pos]);
            }
            if end < n {
                assert(s.skip(pos as int)[end - pos] == s[end as int]);
            }
            lemma_segments_split(s.skip(pos as int), '"', end - pos);
            assert(s.skip(pos as int).take(end - pos) =~= tok@);
            assert(segments(s.skip(pos as int), '"')[0] == tok@);
            assert(toks[gi] == tok@);
        }
        if str_eq(tok, "max_version") {
            // the field name is at token `gi`; the value is token `gi + 2`
            let p2 = match next {
                Some(i) => i + 1,
                None => {
                    proof {
                        assert(toks =~~= toks.take(gi).push(tok@));
                        assert(toks.len() == gi + 1);
                        lemma_find_token_agrees(toks, field_name(), Some(gi));
                    }
                    return Err(Error::ParseFailure);
                },
            };
            proof {
                assert(s.skip(pos as int).skip(end - pos + 1) =~= s.skip(p2 as int));
                assert(toks.take(gi + 1) =~= toks.take(gi).push(tok@));
                assert(toks =~~= toks.take(gi + 1) + segments(s.skip(p2 as int), '"'));
                lemma_find_token_agrees(toks, field_name(), Some(gi));
            }
            let next2 = find_char_from(text, p2, '"');
            let p3 = match next2 {
                Some(i) => i + 1,
                None => {
                    proof {
                        assert forall|j: int| 0 <= j < s.skip(p2 as int).len() implies s.skip(
                            p2 as int,
                        )[j] != '"' by {
                            assert(s.skip(p2 as int)[j] == s[j + p2]);
                        }
                        lemma_segments_split(s.skip(p2 as int), '"', s.skip(p2 as int).len() as int);
                        assert(toks.len() == gi + 2);
                    }
                    return Err(Error::ParseFailure);
                },
            };
            proof {
                let e2 = p3 - 1;
                assert forall|j: int| 0 <= j < e2 - p2 implies s.skip(p2 as int)[j] != '"' by {
                    assert(s.skip(p2 as int)[j] == s[j + p2]);
                }
                assert(s.skip(p2 as int)[e2 - p2] == s[e2]);
                lemma_segments_split(s.skip(p2 as int), '"', e2 - p2);
                assert(s.skip(p2 as int).skip(e2 - p2 + 1) =~= s.skip(p3 as int));
                lemma_segments_len(s.skip(p3 as int), '"');
                assert(toks.len() > gi + 2);
                assert(toks[gi + 2] == segments(s.skip(p3 as int), '"')[0]);
            }
            let next3 = find_char_from(text, p3, '"');
            let end3 = match next3 {
                Some(i) => i,
                None => n,
            };
            let val = text.substring_char(p3, end3);
            proof {
                assert forall|j: int| 0 <= j < end3 - p3 implies s.skip(p3 as int)[j] != '"' by {
                    assert(s.skip(p3 as int)[j] == s[j + p3]);
                }
                if end3 < n {
                    assert(s.skip(p3 as int)[end3 - p3] == s[end3 as int]);
                }
                lemma_segments_split(s.skip(p3 as int), '"', end3 - p3);
                assert(s.skip(p3 as int).take(end3 - p3) =~= val@);
                assert(toks[gi + 2] == val@);
            }
            return Ok(val);
        }
        match next {
            Some(i) => {
                proof {
                    assert(s.skip(pos as int).skip(end - pos + 1) =~= s.skip(end + 1));
                    assert(toks.take(gi + 1) =~= toks.take(gi).push(tok@));
                    assert(toks =~~= toks.take(gi + 1) + segments(s.skip(end + 1), '"'));
                    gi = gi + 1;
                }
                pos = i + 1;
            },
            None => {
                proof {
                    assert(toks =~~= toks.take(gi).push(tok@));
                    assert(toks.len() == gi + 1);
                    lemma_find_token_agrees(toks, field_name(), None);
                }
                return Err(Error::ParseFailure);
            },
        }
    }
}

} // verus!
