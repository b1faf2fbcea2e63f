//! Rendering a version back to text: decimal digit strings, the
//! dotted pre-release part, and build metadata after a `+`. Rendering
//! a version without pre-release and build parts and parsing the
//! result round-trips.

use vstd::prelude::*;

use crate::parse::{spec_parse, split_once, valid_num};
use crate::text::{
    all_digits, dec_value, digit_char, digit_val, is_digit, lemma_find_char_agrees,
    lemma_segments_split, segments,
};
use crate::version::{IdView, Identifier, SemanticVersion, VersionView};

verus! {

/// Decimal digit string of a non-negative number, most significant
/// digit first.
pub open spec fn dec_str(n: int) -> Seq<char>
    decreases n,
{
    if n <= 9 {
        seq![digit_char(n)]
    } else {
        dec_str(n / 10).push(digit_char(n % 10))
    }
}

/// Text of one pre-release identifier.
pub open spec fn render_id(id: IdView) -> Seq<char> {
    match id {
        IdView::Numeric(v) => dec_str(v),
        IdView::AlphaNumeric(s) => s,
    }
}

/// Text of the identifiers after the first one, each preceded by a
/// dot.
pub open spec fn render_more_ids(ids: Seq<IdView>) -> Seq<char>
    decreases ids.len(),
{
    if ids.len() == 0 {
        Seq::empty()
    } else {
        seq!['.'] + render_id(ids[0]) + render_more_ids(ids.drop_first())
    }
}

/// Text of the pre-release part: nothing for a release, otherwise a
/// hyphen followed by the dotted identifiers.
pub open spec fn render_pre(ids: Seq<IdView>) -> Seq<char> {
    if ids.len() == 0 {
        Seq::empty()
    } else {
        seq!['-'] + render_id(ids[0]) + render_more_ids(ids.drop_first())
    }
}

/// The canonical text of a version.
pub open spec fn spec_render(v: VersionView) -> Seq<char> {
    dec_str(v.major) + seq!['.'] + dec_str(v.minor) + seq!['.'] + dec_str(v.patch) + render_pre(
        v.pre,
    ) + match v.build {
        Some(b) => seq!['+'] + b,
        None => Seq::empty(),
    }
}

proof fn lemma_dec_str_props(n: int)
    requires
        n >= 0,
    ensures
        dec_str(n).len() >= 1,
        all_digits(dec_str(n)),
        dec_value(dec_str(n)) == n,
        n >= 1 ==> dec_str(n)[0] != '0',
    decreases n,
{
    if n <= 9 {
        let s = seq![digit_char(n)];
        assert(s.drop_last() =~= Seq::<char>::empty());
        assert(s.last() == digit_char(n));
        assert(digit_val(digit_char(n)) == n);
        assert(dec_value(Seq::<char>::empty()) == 0);
        assert(dec_value(s) == digit_val(digit_char(n)));
    } else {
        lemma_dec_str_props(n / 10);
        let base = dec_str(n / 10);
        let s = base.push(digit_char(n % 10));
        assert(s.drop_last() =~= base);
        assert(s.last() == digit_char(n % 10));
        assert(digit_val(digit_char(n % 10)) == n % 10);
        assert(dec_value(s) == n);
        assert(s[0] == base[0]);
    }
}

fn append_digit(out: &mut String, d: u64)
    requires
        d < 10,
    ensures
        final(out)@ == old(out)@ + seq![digit_char(d as int)],
{
    proof {
        reveal_strlit("0");
        reveal_strlit("1");
        reveal_strlit("2");
        reveal_strlit("3");
        reveal_strlit("4");
        reveal_strlit("5");
        reveal_strlit("6");
        reveal_strlit("7");
        reveal_strlit("8");
        reveal_strlit("9");
    }
    match d {
        0 => out.append("0"),
        1 => out.append("1"),
        2 => out.append("2"),
        3 => out.append("3"),
        4 => out.append("4"),
        5 => out.append("5"),
        6 => out.append("6"),
        7 => out.append("7"),
        8 => out.append("8"),
        _ => out.append("9"),
    }
    proof {
        assert(out@ =~= old(out)@ + seq![digit_char(d as int)]);
    }
}

fn push_dec(out: &mut String, n: u64)
    ensures
        final(out)@ == old(out)@ + dec_str(n as int),
    decreases n,
{
    if n <= 9 {
        append_digit(out, n);
    } else {
        push_dec(out, n / 10);
        append_digit(out, n % 10);
        proof {
            assert(out@ =~= old(out)@ + dec_str(n as int));
        }
    }
}

fn push_id(out: &mut String, id: &Identifier)
    ensures
        final(out)@ == old(out)@ + render_id(id@),
{
    match id {
        Identifier::Numeric(v) => push_dec(out, *v),
        Identifier::AlphaNumeric(s) => out.append(s.as_str()),
    }
}

proof fn lemma_render_more_snoc(ids: Seq<IdView>, x: IdView)
    ensures
        render_more_ids(ids.push(x)) == render_more_ids(ids) + seq!['.'] + render_id(x),
    decreases ids.len(),
{
    if ids.len() == 0 {
        assert(ids.push(x).drop_first() =~= Seq::<IdView>::empty());
        assert(ids.push(x)[0] == x);
        assert(render_more_ids(Seq::<IdView>::empty()) == Seq::<char>::empty());
        assert(render_more_ids(ids.push(x)) =~= render_more_ids(ids) + seq!['.'] + render_id(x));
    } else {
        assert(ids.push(x).drop_first() =~= ids.drop_first().push(x));
        lemma_render_more_snoc(ids.drop_first(), x);
        assert(render_more_ids(ids.push(x)) =~= render_more_ids(ids) + seq!['.'] + render_id(x));
    }
}

impl SemanticVersion {
    /// The canonical text of this version, `major.minor.patch` with
    /// the pre-release and build parts when present.
    pub fn to_text(&self) -> (r: String)
        ensures
            r@ == spec_render(self@),
    {
        proof {
            reveal_strlit(".");
            reveal_strlit("-");
            reveal_strlit("+");
        }
        let mut out = String::new();
        push_dec(&mut out, self.major);
        out.append(".");
        push_dec(&mut out, self.minor);
        out.append(".");
        push_dec(&mut out, self.patch);
        let ghost head = dec_str(self@.major) + seq!['.'] + dec_str(self@.minor) + seq!['.']
            + dec_str(self@.patch);
        proof {
            assert("."@ =~= seq!['.']);
            assert(out@ =~= head);
        }
        let ghost views = self@.pre;
        let pre_len = self.pre.len();
        if pre_len > 0 {
            out.append("-");
            push_id(&mut out, &self.pre[0]);
            proof {
                assert("-"@ =~= seq!['-']);
                assert(views.take(1).drop_first() =~= Seq::<IdView>::empty());
                assert(views.take(1)[0] == views[0]);
                assert(out@ =~= head + render_pre(views.take(1)));
            }
            let mut k: usize = 1;
            while k < pre_len
                invariant
                    1 <= k <= pre_len,
                    pre_len == self.pre.len(),
                    views == self@.pre,
                    out@ == head + render_pre(views.take(k as int)),
                decreases pre_len - k,
            {
                out.append(".");
                push_id(&mut out, &self.pre[k]);
                proof {
                    reveal_strlit(".");
                    assert("."@ =~= seq!['.']);
                    assert(views.take(k + 1).drop_first() =~= views.take(
                        k as int,
                    ).drop_first().push(views[k as int]));
                    lemma_render_more_snoc(views.take(k as int).drop_first(), views[k as int]);
                    assert(views.take(k + 1)[0] == views[0]);
                    assert(views.take(k as int)[0] == views[0]);
                    assert(out@ =~= head + render_pre(views.take(k + 1)));
                }
                k = k + 1;
            }
            proof {
                assert(views.take(pre_len as int) =~= views);
            }
        } else {
            proof {
                assert(out@ =~= head + render_pre(views));
            }
        }
        match &self.build {
            Some(b) => {
                out.append("+");
                out.append(b.as_str());
                proof {
                    assert("+"@ =~= seq!['+']);
                    assert(out@ =~= spec_render(self@));
                }
            },
            None => {
                proof {
                    assert(out@ =~= spec_render(self@));
                }
            },
        }
        out
    }
}

/// Formatting a version made of three plain numeric components and
/// parsing the text back yields exactly that version.
#[verifier::rlimit(50)]
pub proof fn lemma_parse_format_round_trip(major: u64, minor: u64, patch: u64)
    ensures
        ({
            let v = VersionView {
                major: major as int,
                minor: minor as int,
                patch: patch as int,
                pre: Seq::<IdView>::empty(),
                build: None,
            };
            spec_parse(spec_render(v)) == Some(v)
        }),
{
    let v = VersionView {
        major: major as int,
        minor: minor as int,
        patch: patch as int,
        pre: Seq::<IdView>::empty(),
        build: None,
    };
    let a = dec_str(major as int);
    let b = dec_str(minor as int);
    let c = dec_str(patch as int);
    lemma_dec_str_props(major as int);
    lemma_dec_str_props(minor as int);
    lemma_dec_str_props(patch as int);
    let s = spec_render(v);
    assert(s =~= a + seq!['.'] + b + seq!['.'] + c);
    assert forall|j: int| 0 <= j < s.len() implies s[j] != '+' && s[j] != '-' by {
        assert(is_digit(s[j]) || s[j] == '.');
        if is_digit(s[j]) {
            assert(s[j] as u32 != '+' as u32 && s[j] as u32 != '-' as u32);
        }
    }
    lemma_find_char_agrees(s, '+', None);
    lemma_find_char_agrees(s, '-', None);
    assert(split_once(s, '+') == (s, None::<Seq<char>>));
    assert(split_once(s, '-') == (s, None::<Seq<char>>));
    // segments of the rendered core: the two dots separate the pieces
    assert forall|j: int| 0 <= j < a.len() implies s[j] != '.' by {
        assert(s[j] == a[j]);
    }
    assert(s[a.len() as int] == '.');
    lemma_segments_split(s, '.', a.len() as int);
    assert(s.take(a.len() as int) =~= a);
    let s2 = s.skip(a.len() as int + 1);
    assert(s2 =~= b + seq!['.'] + c);
    assert forall|j: int| 0 <= j < b.len() implies s2[j] != '.' by {
        assert(s2[j] == b[j]);
    }
    assert(s2[b.len() as int] == '.');
    lemma_segments_split(s2, '.', b.len() as int);
    assert(s2.take(b.len() as int) =~= b);
    let s3 = s2.skip(b.len() as int + 1);
    assert(s3 =~= c);
    assert forall|j: int| 0 <= j < s3.len() implies s3[j] != '.' by {
        assert(s3[j] == c[j]);
    }
    lemma_segments_split(s3, '.', s3.len() as int);
    assert(segments(s, '.') =~~= seq![a, b, c]);
    assert(valid_num(a) && valid_num(b) && valid_num(c));
    assert(spec_parse(s) == Some(v));
}

} // verus!
