//! Parsing version text: the grammar `MAJOR.MINOR.PATCH[-PRE][+BUILD]`
//! as a specification over character sequences, and the verified
//! parser that decides it.

use vstd::prelude::*;

use crate::error::Error;
use crate::text::{
    all_digits, dec_value, digit_val, find_char, find_char_from, is_digit, is_ident_char,
    lemma_dec_value_prefix, lemma_find_char_agrees, lemma_segments_len, lemma_segments_split,
    segments,
};
use crate::version::{IdView, Identifier, SemanticVersion, VersionView};

verus! {

/// A well-formed numeric component: digits only, not empty, no
/// leading zero, and small enough for a machine word.
pub open spec fn valid_num(s: Seq<char>) -> bool {
    s.len() > 0 && all_digits(s) && (s.len() > 1 ==> s[0] != '0') && dec_value(s) <= u64::MAX
}

/// A well-formed pre-release identifier: not empty, identifier
/// characters only, and numeric identifiers obey the numeric rules.
pub open spec fn valid_pre_id(s: Seq<char>) -> bool {
    s.len() > 0 && (forall|i: int| 0 <= i < s.len() ==> is_ident_char(#[trigger] s[i]))
        && (all_digits(s) ==> valid_num(s))
}

/// A well-formed build identifier: not empty, identifier characters
/// only. Leading zeros are allowed here.
pub open spec fn valid_build_id(s: Seq<char>) -> bool {
    s.len() > 0 && (forall|i: int| 0 <= i < s.len() ==> is_ident_char(#[trigger] s[i]))
}

/// How one pre-release identifier reads: as a number when it is all
/// digits, as its characters otherwise.
pub open spec fn id_view_of(s: Seq<char>) -> IdView {
    if all_digits(s) {
        IdView::Numeric(dec_value(s))
    } else {
        IdView::AlphaNumeric(s)
    }
}

/// A well-formed pre-release part: every dot-separated identifier is
/// well formed.
pub open spec fn valid_pre(s: Seq<char>) -> bool {
    forall|k: int|
        0 <= k < segments(s, '.').len() ==> valid_pre_id(#[trigger] segments(s, '.')[k])
}

/// A well-formed build part: every dot-separated identifier is well
/// formed.
pub open spec fn valid_build(s: Seq<char>) -> bool {
    forall|k: int|
        0 <= k < segments(s, '.').len() ==> valid_build_id(#[trigger] segments(s, '.')[k])
}

/// The pre-release identifiers as the order sees them.
pub open spec fn pre_views(s: Seq<char>) -> Seq<IdView> {
    segments(s, '.').map_values(|seg: Seq<char>| id_view_of(seg))
}

/// Splitting at the first occurrence of `c`: the part before, and the
/// part after when `c` occurs at all.
pub open spec fn split_once(s: Seq<char>, c: char) -> (Seq<char>, Option<Seq<char>>) {
    match find_char(s, c) {
        Some(i) => (s.take(i), Some(s.skip(i + 1))),
        None => (s, None),
    }
}

/// The version a piece of text denotes, if it is well formed: the text
/// up to the first `+` splits at the first `-` into the numeric core
/// and the pre-release part; what follows the `+` is build metadata.
pub open spec fn spec_parse(s: Seq<char>) -> Option<VersionView> {
    let (before_build, build) = split_once(s, '+');
    let (core, pre) = split_once(before_build, '-');
    let segs = segments(core, '.');
    if segs.len() == 3 && valid_num(segs[0]) && valid_num(segs[1]) && valid_num(segs[2]) && (match pre {
        Some(p) => valid_pre(p),
        None => true,
    }) && (match build {
        Some(b) => valid_build(b),
        None => true,
    }) {
        Some(
            VersionView {
                major: dec_value(segs[0]),
                minor: dec_value(segs[1]),
                patch: dec_value(segs[2]),
                pre: match pre {
                    Some(p) => pre_views(p),
                    None => Seq::empty(),
                },
                build,
            },
        )
    } else {
        None
    }
}

fn parse_num(s: &str) -> (r: Option<u64>)
    ensures
        match r {
            Some(v) => valid_num(s@) && v == dec_value(s@),
            None => !valid_num(s@),
        },
{
    let n = s.unicode_len();
    if n == 0 {
        return None;
    }
    if n > 1 && s.get_char(0) == '0' {
        return None;
    }
    let mut acc: u64 = 0;
    let mut i: usize = 0;
    proof {
        assert(s@.take(0) =~= Seq::<char>::empty());
    }
    while i < n
        invariant
            i <= n,
            n == s@.len(),
            n > 0,
            n > 1 ==> s@[0] != '0',
            forall|j: int| 0 <= j < i ==> is_digit(#[trigger] s@[j]),
            acc == dec_value(s@.take(i as int)),
        decreases n - i,
    {
        let c = s.get_char(i);
        let u = c as u32;
        if u < '0' as u32 || u > '9' as u32 {
            return None;
        }
        let dv = (u - '0' as u32) as u64;
        proof {
            assert(s@.take(i + 1).drop_last() =~= s@.take(i as int));
            assert(s@.take(i + 1).last() == s@[i as int]);
            assert(digit_val(s@[i as int]) == dv as int);
        }
        if acc > (u64::MAX - dv) / 10 {
            proof {
                assert(dec_value(s@.take(i + 1)) > u64::MAX);
                if all_digits(s@) {
                    lemma_dec_value_prefix(s@, i + 1);
                }
            }
            return None;
        }
        acc = acc * 10 + dv;
        i = i + 1;
    }
    proof {
        assert(s@.take(n as int) =~= s@);
    }
    Some(acc)
}

fn parse_pre_id(s: &str) -> (r: Option<Identifier>)
    ensures
        match r {
            Some(id) => valid_pre_id(s@) && id@ == id_view_of(s@),
            None => !valid_pre_id(s@),
        },
{
    let n = s.unicode_len();
    if n == 0 {
        return None;
    }
    let mut digits_only = true;
    let mut i: usize = 0;
    while i < n
        invariant
            i <= n,
            n == s@.len(),
            forall|j: int| 0 <= j < i ==> is_ident_char(#[trigger] s@[j]),
            digits_only == (forall|j: int| 0 <= j < i ==> is_digit(#[trigger] s@[j])),
        decreases n - i,
    {
        let c = s.get_char(i);
        let u = c as u32;
        let is_dig = u >= '0' as u32 && u <= '9' as u32;
        let is_other = (u >= 'a' as u32 && u <= 'z' as u32) || (u >= 'A' as u32 && u <= 'Z'
            as u32) || c == '-';
        if !is_dig && !is_other {
            return None;
        }
        if !is_dig {
            digits_only = false;
        }
        i = i + 1;
    }
    if digits_only {
        match parse_num(s) {
            Some(v) => Some(Identifier::Numeric(v)),
            None => None,
        }
    } else {
        Some(Identifier::AlphaNumeric(s.to_owned()))
    }
}

fn parse_pre(p: &str) -> (r: Option<Vec<Identifier>>)
    ensures
        match r {
            Some(ids) => valid_pre(p@) && ids@.map_values(|id: Identifier| id@) == pre_views(
                p@,
            ),
            None => !valid_pre(p@),
        },
{
    let n = p.unicode_len();
    let mut ids: Vec<Identifier> = Vec::new();
    let mut pos: usize = 0;
    let ghost segs = segments(p@, '.');
    proof {
        assert(p@.skip(0) =~= p@);
        assert(segs =~~= segs.take(0) + segments(p@.skip(0), '.'));
    }
    loop
        invariant
            pos <= n,
            n == p@.len(),
            segs == segments(p@, '.'),
            ids.len() <= segs.len(),
            segs == segs.take(ids.len() as int) + segments(p@.skip(pos as int), '.'),
            forall|k: int|
                0 <= k < ids.len() ==> valid_pre_id(#[trigger] segs[k]) && ids@.map_values(
                    |id: Identifier| id@,
                )[k] == id_view_of(segs[k]),
        decreases n - pos,
    {
        let next = find_char_from(p, pos, '.');
        let end = match next {
            Some(i) => i,
            None => n,
        };
        let seg = p.substring_char(pos, end);
        proof {
            lemma_segments_len(p@.skip(pos as int), '.');
            assert forall|j: int| 0 <= j < end - pos implies p@.skip(pos as int)[j] != '.' by {
                assert(p@.skip(pos as int)[j] == p@[j + pos]);
            }
            if end < n {
                assert(p@.skip(pos as int)[end - pos] == p@[end as int]);
            }
            lemma_segments_split(p@.skip(pos as int), '.', end - pos);
            assert(p@.skip(pos as int).take(end - pos) =~= seg@);
        }
        let parsed = parse_pre_id(seg);
        match parsed {
            None => {
                proof {
                    assert(segments(p@.skip(pos as int), '.')[0] == seg@);
                    assert(segs[ids.len() as int] == seg@);
                    assert(!valid_pre_id(segs[ids.len() as int]));
                }
                return None;
            },
            Some(id) => {
                ids.push(id);
            },
        }
        match next {
            Some(i) => {
                proof {
                    assert(p@.skip(pos as int).skip(end - pos + 1) =~= p@.skip(end + 1));
                    assert(segments(p@.skip(pos as int), '.') == seq![seg@] + segments(
                        p@.skip(end + 1),
                        '.',
                    ));
                    assert(segs[ids.len() - 1] == seg@);
                    assert(segs.take(ids.len() as int) =~= segs.take(ids.len() - 1).push(seg@));
                    assert(segs =~~= segs.take(ids.len() as int) + segments(p@.skip(end + 1), '.'));
                }
                pos = i + 1;
            },
            None => {
                proof {
                    assert(segments(p@.skip(pos as int), '.') == seq![p@.skip(pos as int)]);
                    assert(p@.skip(pos as int) == seg@);
                    assert(segs =~~= segs.take(ids.len() - 1).push(seg@));
                    assert(segs.len() == ids.len());
                    assert(segs[ids.len() - 1] == seg@);
                    assert(ids@.map_values(|id: Identifier| id@) =~= pre_views(p@));
                }
                return Some(ids);
            },
        }
    }
}

fn check_build(b: &str) -> (r: bool)
    ensures
        r == valid_build(b@),
{
    let n = b.unicode_len();
    let mut pos: usize = 0;
    let ghost segs = segments(b@, '.');
    let ghost mut done: int = 0;
    proof {
        assert(b@.skip(0) =~= b@);
        assert(segs =~~= segs.take(0) + segments(b@.skip(0), '.'));
    }
    loop
        invariant
            pos <= n,
            n == b@.len(),
            segs == segments(b@, '.'),
            0 <= done <= segs.len(),
            segs == segs.take(done) + segments(b@.skip(pos as int), '.'),
            forall|k: int| 0 <= k < done ==> valid_build_id(#[trigger] segs[k]),
        decreases n - pos,
    {
        let next = find_char_from(b, pos, '.');
        let end = match next {
            Some(i) => i,
            None => n,
        };
        let seg = b.substring_char(pos, end);
        proof {
            lemma_segments_len(b@.skip(pos as int), '.');
            assert forall|j: int| 0 <= j < end - pos implies b@.skip(pos as int)[j] != '.' by {
                assert(b@.skip(pos as int)[j] == b@[j + pos]);
            }
            if end < n {
                assert(b@.skip(pos as int)[end - pos] == b@[end as int]);
            }
            lemma_segments_split(b@.skip(pos as int), '.', end - pos);
            assert(b@.skip(pos as int).take(end - pos) =~= seg@);
        }
        if !check_build_id(seg) {
            proof {
                assert(segments(b@.skip(pos as int), '.')[0] == seg@);
                assert(segs[done] == seg@);
            }
            return false;
        }
        proof {
            assert(segments(b@.skip(pos as int), '.')[0] == seg@);
            assert(segs[done] == seg@);
        }
        match next {
            Some(i) => {
                proof {
                    assert(b@.skip(pos as int).skip(end - pos + 1) =~= b@.skip(end + 1));
                    assert(segments(b@.skip(pos as int), '.') == seq![seg@] + segments(
                        b@.skip(end + 1),
                        '.',
                    ));
                    assert(segs.take(done + 1) =~= segs.take(done).push(seg@));
                    assert(segs =~~= segs.take(done + 1) + segments(b@.skip(end + 1), '.'));
                    done = done + 1;
                }
                pos = i + 1;
            },
            None => {
                proof {
                    assert(segments(b@.skip(pos as int), '.') == seq![b@.skip(pos as int)]);
                    assert(b@.skip(pos as int) == seg@);
                    assert(segs =~~= segs.take(done).push(seg@));
                    assert(segs.len() == done + 1);
                }
                return true;
            },
        }
    }
}

impl SemanticVersion {
    /// Parse version text of the form `MAJOR.MINOR.PATCH[-PRE][+BUILD]`;
    /// text that does not fit the grammar is rejected as a syntax error.
    #[verifier::rlimit(50)]
    pub fn parse(text: &str) -> (r: Result<SemanticVersion, Error>)
        ensures
            match r {
                Ok(v) => spec_parse(text@) == Some(v@),
                Err(e) => spec_parse(text@) is None && e == Error::VersionSyntaxError,
            },
    {
        let ghost s = text@;
        let n = text.unicode_len();
        let plus = find_char_from(text, 0, '+');
        proof {
            lemma_find_char_agrees(
                s,
                '+',
                match plus {
                    Some(i) => Some(i as int),
                    None => None,
                },
            );
        }
        let (before_build, build_txt): (&str, Option<&str>) = match plus {
            Some(i) => (text.substring_char(0, i), Some(text.substring_char(i + 1, n))),
            None => (text, None),
        };
        proof {
            if plus is Some {
                assert(s.take(plus->Some_0 as int) =~= s.subrange(0, plus->Some_0 as int));
                assert(s.skip(plus->Some_0 as int + 1) =~= s.subrange(
                    plus->Some_0 as int + 1,
                    s.len() as int,
                ));
            }
            assert(before_build@ == split_once(s, '+').0);
        }
        let bn = before_build.unicode_len();
        let minus = find_char_from(before_build, 0, '-');
        proof {
            lemma_find_char_agrees(
                before_build@,
                '-',
                match minus {
                    Some(i) => Some(i as int),
                    None => None,
                },
            );
        }
        let (core, pre_txt): (&str, Option<&str>) = match minus {
            Some(i) => (
                before_build.substring_char(0, i),
                Some(before_build.substring_char(i + 1, bn)),
            ),
            None => (before_build, None),
        };
        proof {
            if minus is Some {
                assert(before_build@.take(minus->Some_0 as int) =~= before_build@.subrange(
                    0,
                    minus->Some_0 as int,
                ));
                assert(before_build@.skip(minus->Some_0 as int + 1) =~= before_build@.subrange(
                    minus->Some_0 as int + 1,
                    before_build@.len() as int,
                ));
            }
            assert(core@ == split_once(before_build@, '-').0);
        }
        let ghost segs = segments(core@, '.');
        let core_len = core.unicode_len();
        let d1 = find_char_from(core, 0, '.');
        let i1 = match d1 {
            Some(i) => i,
            None => {
                proof {
                    lemma_segments_split(core@, '.', core@.len() as int);
                }
                return Err(Error::VersionSyntaxError);
            },
        };
        let d2 = find_char_from(core, i1 + 1, '.');
        proof {
            lemma_segments_split(core@, '.', i1 as int);
        }
        let i2 = match d2 {
            Some(i) => i,
            None => {
                proof {
                    let tail = core@.skip(i1 + 1);
                    assert forall|j: int| 0 <= j < tail.len() implies tail[j] != '.' by {
                        assert(tail[j] == core@[j + i1 + 1]);
                    }
                    lemma_segments_split(tail, '.', tail.len() as int);
                }
                return Err(Error::VersionSyntaxError);
            },
        };
        proof {
            let tail = core@.skip(i1 + 1);
            assert forall|j: int| 0 <= j < i2 - i1 - 1 implies tail[j] != '.' by {
                assert(tail[j] == core@[j + i1 + 1]);
            }
            assert(tail[i2 - i1 - 1] == core@[i2 as int]);
            lemma_segments_split(tail, '.', i2 - i1 - 1);
            assert(tail.skip(i2 - i1) =~= core@.skip(i2 + 1));
        }
        let d3 = find_char_from(core, i2 + 1, '.');
        match d3 {
            Some(i3) => {
                proof {
                    let tail2 = core@.skip(i2 + 1);
                    assert forall|j: int| 0 <= j < i3 - i2 - 1 implies tail2[j] != '.' by {
                        assert(tail2[j] == core@[j + i2 + 1]);
                    }
                    assert(tail2[i3 - i2 - 1] == core@[i3 as int]);
                    lemma_segments_split(tail2, '.', i3 - i2 - 1);
                    lemma_segments_len(tail2.skip(i3 - i2), '.');
                    assert(segs.len() >= 4);
                }
                return Err(Error::VersionSyntaxError);
            },
            None => {},
        }
        proof {
            let tail2 = core@.skip(i2 + 1);
            assert forall|j: int| 0 <= j < tail2.len() implies tail2[j] != '.' by {
                assert(tail2[j] == core@[j + i2 + 1]);
            }
            lemma_segments_split(tail2, '.', tail2.len() as int);
        }
        let s1 = core.substring_char(0, i1);
        let s2 = core.substring_char(i1 + 1, i2);
        let s3 = core.substring_char(i2 + 1, core_len);
        proof {
            assert(core@.take(i1 as int) =~= s1@);
            assert(core@.skip(i1 + 1).take(i2 - i1 - 1) =~= s2@);
            assert(core@.skip(i2 + 1) =~= s3@);
            assert(segs =~~= seq![s1@, s2@, s3@]);
        }
        let major = match parse_num(s1) {
            Some(v) => v,
            None => {
                return Err(Error::VersionSyntaxError);
            },
        };
        let minor = match parse_num(s2) {
            Some(v) => v,
            None => {
                return Err(Error::VersionSyntaxError);
            },
        };
        let patch = match parse_num(s3) {
            Some(v) => v,
            None => {
                return Err(Error::VersionSyntaxError);
            },
        };
        let pre_ids: Vec<Identifier> = match pre_txt {
            Some(p) => match parse_pre(p) {
                Some(ids) => ids,
                None => {
                    return Err(Error::VersionSyntaxError);
                },
            },
            None => Vec::new(),
        };
        let build_val: Option<String> = match build_txt {
            Some(b) => {
                if !check_build(b) {
                    return Err(Error::VersionSyntaxError);
                }
                Some(b.to_owned())
            },
            None => None,
        };
        let v = SemanticVersion { major, minor, patch, pre: pre_ids, build: build_val };
        proof {
            if pre_txt is None {
                assert(v@.pre =~= Seq::<IdView>::empty());
            }
            assert(spec_parse(s) == Some(v@));
        }
        Ok(v)
    }
}

fn check_build_id(s: &str) -> (r: bool)
    ensures
        r == valid_build_id(s@),
{
    let n = s.unicode_len();
    if n == 0 {
        return false;
    }
    let mut i: usize = 0;
    while i < n
        invariant
            i <= n,
            n == s@.len(),
            forall|j: int| 0 <= j < i ==> is_ident_char(#[trigger] s@[j]),
        decreases n - i,
    {
        let c = s.get_char(i);
        let u = c as u32;
        let ok = (u >= '0' as u32 && u <= '9' as u32) || (u >= 'a' as u32 && u <= 'z' as u32) || (u
            >= 'A' as u32 && u <= 'Z' as u32) || c == '-';
        if !ok {
            return false;
        }
        i = i + 1;
    }
    true
}

} // verus!
