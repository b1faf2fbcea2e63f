//! Semantic versions: the value type, its mathematical view, and the
//! three-way comparison that orders versions by semantic-versioning
//! precedence (numeric core, then pre-release identifiers; build
//! metadata never participates in the order).

use vstd::prelude::*;

verus! {

/// Outcome of a three-way comparison.
#[derive(Clone, Copy, Debug, PartialEq, Eq, Structural)]
pub enum Comparison {
    /// The left operand precedes the right one.
    Less,
    /// The operands are equivalent in the order.
    Equal,
    /// The left operand follows the right one.
    Greater,
}

/// One pre-release identifier: purely numeric identifiers compare as
/// numbers, all others compare as ASCII character sequences.
#[derive(Clone, Debug, PartialEq, Eq)]
pub enum Identifier {
    /// An all-digit identifier, held as its numeric value.
    Numeric(u64),
    /// An identifier with at least one non-digit character.
    AlphaNumeric(String),
}

/// An immutable semantic version: `major.minor.patch`, an optional
/// pre-release identifier sequence, and optional build metadata that
/// is carried verbatim and ignored by the order.
#[derive(Clone, Debug, PartialEq, Eq)]
pub struct SemanticVersion {
    /// Major component.
    pub major: u64,
    /// Minor component.
    pub minor: u64,
    /// Patch component.
    pub patch: u64,
    /// Pre-release identifiers; empty means the version is a release.
    pub pre: Vec<Identifier>,
    /// Raw build-metadata text (the part after `+`), if any.
    pub build: Option<String>,
}

/// Mathematical view of one pre-release identifier.
pub ghost enum IdView {
    /// Numeric identifier.
    Numeric(int),
    /// Alphanumeric identifier, as its character sequence.
    AlphaNumeric(Seq<char>),
}

/// Mathematical view of a semantic version.
pub ghost struct VersionView {
    /// Major component.
    pub major: int,
    /// Minor component.
    pub minor: int,
    /// Patch component.
    pub patch: int,
    /// Pre-release identifiers.
    pub pre: Seq<IdView>,
    /// Build metadata characters, if present.
    pub build: Option<Seq<char>>,
}

impl View for Identifier {
    type V = IdView;

    open spec fn view(&self) -> IdView {
        match self {
            Identifier::Numeric(n) => IdView::Numeric(*n as int),
            Identifier::AlphaNumeric(s) => IdView::AlphaNumeric(s@),
        }
    }
}

impl View for SemanticVersion {
    type V = VersionView;

    open spec fn view(&self) -> VersionView {
        VersionView {
            major: self.major as int,
            minor: self.minor as int,
            patch: self.patch as int,
            pre: self.pre@.map_values(|id: Identifier| id@),
            build: match self.build {
                Some(b) => Some(b@),
                None => None,
            },
        }
    }
}

/// Three-way order on integers.
pub open spec fn cmp_int(a: int, b: int) -> Comparison {
    if a < b {
        Comparison::Less
    } else if a == b {
        Comparison::Equal
    } else {
        Comparison::Greater
    }
}

/// Lexicographic order on character sequences by code point; a proper
/// prefix precedes every extension of it.
pub open spec fn cmp_chars(a: Seq<char>, b: Seq<char>) -> Comparison
    decreases a.len(),
{
    if a.len() == 0 && b.len() == 0 {
        Comparison::Equal
    } else if a.len() == 0 {
        Comparison::Less
    } else if b.len() == 0 {
        Comparison::Greater
    } else if a[0] != b[0] {
        cmp_int(a[0] as u32 as int, b[0] as u32 as int)
    } else {
        cmp_chars(a.drop_first(), b.drop_first())
    }
}

/// Order on single pre-release identifiers: numeric identifiers compare
/// numerically and precede every alphanumeric identifier.
pub open spec fn cmp_id(a: IdView, b: IdView) -> Comparison {
    match (a, b) {
        (IdView::Numeric(x), IdView::Numeric(y)) => cmp_int(x, y),
        (IdView::Numeric(_), IdView::AlphaNumeric(_)) => Comparison::Less,
        (IdView::AlphaNumeric(_), IdView::Numeric(_)) => Comparison::Greater,
        (IdView::AlphaNumeric(x), IdView::AlphaNumeric(y)) => cmp_chars(x, y),
    }
}

/// Lexicographic order on identifier sequences; a shorter sequence
/// precedes every extension of it.
pub open spec fn cmp_ids(a: Seq<IdView>, b: Seq<IdView>) -> Comparison
    decreases a.len(),
{
    if a.len() == 0 && b.len() == 0 {
        Comparison::Equal
    } else if a.len() == 0 {
        Comparison::Less
    } else if b.len() == 0 {
        Comparison::Greater
    } else if cmp_id(a[0], b[0]) != Comparison::Equal {
        cmp_id(a[0], b[0])
    } else {
        cmp_ids(a.drop_first(), b.drop_first())
    }
}

/// Order on pre-release positions: a release (no identifiers) follows
/// every pre-release of the same numeric core.
pub open spec fn cmp_pre(a: Seq<IdView>, b: Seq<IdView>) -> Comparison {
    if a.len() == 0 && b.len() == 0 {
        Comparison::Equal
    } else if a.len() == 0 {
        Comparison::Greater
    } else if b.len() == 0 {
        Comparison::Less
    } else {
        cmp_ids(a, b)
    }
}

/// Semantic-versioning precedence: numeric core first, then the
/// pre-release position. Build metadata is ignored.
pub open spec fn cmp_version(a: VersionView, b: VersionView) -> Comparison {
    if a.major != b.major {
        cmp_int(a.major, b.major)
    } else if a.minor != b.minor {
        cmp_int(a.minor, b.minor)
    } else if a.patch != b.patch {
        cmp_int(a.patch, b.patch)
    } else {
        cmp_pre(a.pre, b.pre)
    }
}

/// The comparison seen from the other side: `Less` and `Greater`
/// exchange places, `Equal` stays.
pub open spec fn flipped(c: Comparison) -> Comparison {
    match c {
        Comparison::Less => Comparison::Greater,
        Comparison::Equal => Comparison::Equal,
        Comparison::Greater => Comparison::Less,
    }
}

proof fn lemma_cmp_chars_refl(a: Seq<char>)
    ensures
        cmp_chars(a, a) == Comparison::Equal,
    decreases a.len(),
{
    if a.len() > 0 {
        lemma_cmp_chars_refl(a.drop_first());
    }
}

proof fn lemma_cmp_chars_flip(a: Seq<char>, b: Seq<char>)
    ensures
        cmp_chars(b, a) == flipped(cmp_chars(a, b)),
    decreases a.len(),
{
    if a.len() > 0 && b.len() > 0 && a[0] == b[0] {
        lemma_cmp_chars_flip(a.drop_first(), b.drop_first());
    }
}

proof fn lemma_cmp_chars_equal(a: Seq<char>, b: Seq<char>)
    ensures
        (cmp_chars(a, b) == Comparison::Equal) <==> (a == b),
    decreases a.len(),
{
    if a.len() == 0 && b.len() == 0 {
        assert(a =~= b);
    } else if a.len() > 0 && b.len() > 0 && a[0] == b[0] {
        lemma_cmp_chars_equal(a.drop_first(), b.drop_first());
        if cmp_chars(a, b) == Comparison::Equal {
            assert(a.drop_first() == b.drop_first());
            assert forall|i: int| 0 <= i < a.len() implies a[i] == b[i] by {
                if i > 0 {
                    assert(a.drop_first()[i - 1] == a[i]);
                    assert(b.drop_first()[i - 1] == b[i]);
                }
            }
            assert(a =~= b);
        }
        if a == b {
            assert(a.drop_first() =~= b.drop_first());
        }
    } else if a.len() > 0 && b.len() > 0 {
        // the head characters differ, so their code points differ
        vstd::utf8::char_u32_cast(a[0], a[0] as u32);
        vstd::utf8::char_u32_cast(b[0], b[0] as u32);
        assert(cmp_chars(a, b) != Comparison::Equal);
    }
}

proof fn lemma_cmp_chars_trans(a: Seq<char>, b: Seq<char>, c: Seq<char>)
    requires
        cmp_chars(a, b) == Comparison::Less,
        cmp_chars(b, c) == Comparison::Less,
    ensures
        cmp_chars(a, c) == Comparison::Less,
    decreases a.len(),
{
    if a.len() > 0 && b.len() > 0 && c.len() > 0 && a[0] == b[0] && b[0] == c[0] {
        lemma_cmp_chars_trans(a.drop_first(), b.drop_first(), c.drop_first());
    }
}

proof fn lemma_cmp_id_refl(a: IdView)
    ensures
        cmp_id(a, a) == Comparison::Equal,
{
    match a {
        IdView::Numeric(_) => {},
        IdView::AlphaNumeric(s) => {
            lemma_cmp_chars_refl(s);
        },
    }
}

proof fn lemma_cmp_id_flip(a: IdView, b: IdView)
    ensures
        cmp_id(b, a) == flipped(cmp_id(a, b)),
{
    match (a, b) {
        (IdView::AlphaNumeric(x), IdView::AlphaNumeric(y)) => {
            lemma_cmp_chars_flip(x, y);
        },
        _ => {},
    }
}

proof fn lemma_cmp_id_equal(a: IdView, b: IdView)
    ensures
        (cmp_id(a, b) == Comparison::Equal) <==> (a == b),
{
    match (a, b) {
        (IdView::AlphaNumeric(x), IdView::AlphaNumeric(y)) => {
            lemma_cmp_chars_equal(x, y);
        },
        _ => {},
    }
}

proof fn lemma_cmp_id_trans(a: IdView, b: IdView, c: IdView)
    requires
        cmp_id(a, b) == Comparison::Less,
        cmp_id(b, c) == Comparison::Less,
    ensures
        cmp_id(a, c) == Comparison::Less,
{
    match (a, b, c) {
        (IdView::AlphaNumeric(x), IdView::AlphaNumeric(y), IdView::AlphaNumeric(z)) => {
            lemma_cmp_chars_trans(x, y, z);
        },
        _ => {},
    }
}

proof fn lemma_cmp_ids_refl(a: Seq<IdView>)
    ensures
        cmp_ids(a, a) == Comparison::Equal,
    decreases a.len(),
{
    if a.len() > 0 {
        lemma_cmp_id_refl(a[0]);
        lemma_cmp_ids_refl(a.drop_first());
    }
}

proof fn lemma_cmp_ids_flip(a: Seq<IdView>, b: Seq<IdView>)
    ensures
        cmp_ids(b, a) == flipped(cmp_ids(a, b)),
    decreases a.len(),
{
    if a.len() > 0 && b.len() > 0 {
        lemma_cmp_id_flip(a[0], b[0]);
        if cmp_id(a[0], b[0]) == Comparison::Equal {
            lemma_cmp_ids_flip(a.drop_first(), b.drop_first());
        }
    }
}

proof fn lemma_cmp_ids_equal(a: Seq<IdView>, b: Seq<IdView>)
    ensures
        (cmp_ids(a, b) == Comparison::Equal) <==> (a == b),
    decreases a.len(),
{
    if a.len() == 0 && b.len() == 0 {
        assert(a =~= b);
    } else if a.len() > 0 && b.len() > 0 {
        lemma_cmp_id_equal(a[0], b[0]);
        if cmp_id(a[0], b[0]) == Comparison::Equal {
            lemma_cmp_ids_equal(a.drop_first(), b.drop_first());
            if cmp_ids(a, b) == Comparison::Equal {
                assert(a.drop_first() == b.drop_first());
                assert forall|i: int| 0 <= i < a.len() implies a[i] == b[i] by {
                    if i > 0 {
                        assert(a.drop_first()[i - 1] == a[i]);
                        assert(b.drop_first()[i - 1] == b[i]);
                    }
                }
                assert(a =~= b);
            }
            if a == b {
                assert(a.drop_first() =~= b.drop_first());
            }
        } else {
            if a == b {
                lemma_cmp_id_refl(a[0]);
            }
        }
    }
}

proof fn lemma_cmp_ids_trans(a: Seq<IdView>, b: Seq<IdView>, c: Seq<IdView>)
    requires
        cmp_ids(a, b) == Comparison::Less,
        cmp_ids(b, c) == Comparison::Less,
    ensures
        cmp_ids(a, c) == Comparison::Less,
    decreases a.len(),
{
    if a.len() > 0 && b.len() > 0 && c.len() > 0 {
        lemma_cmp_id_equal(a[0], b[0]);
        lemma_cmp_id_equal(b[0], c[0]);
        lemma_cmp_id_equal(a[0], c[0]);
        if cmp_id(a[0], b[0]) == Comparison::Equal && cmp_id(b[0], c[0]) == Comparison::Equal {
            lemma_cmp_ids_trans(a.drop_first(), b.drop_first(), c.drop_first());
        } else if cmp_id(a[0], b[0]) == Comparison::Equal {
            // a[0] == b[0], so the head comparison of a and c is that of b and c
        } else if cmp_id(b[0], c[0]) == Comparison::Equal {
            // b[0] == c[0], so the head comparison of a and c is that of a and b
        } else {
            lemma_cmp_id_trans(a[0], b[0], c[0]);
        }
    }
}

proof fn lemma_cmp_pre_refl(a: Seq<IdView>)
    ensures
        cmp_pre(a, a) == Comparison::Equal,
{
    lemma_cmp_ids_refl(a);
}

proof fn lemma_cmp_pre_flip(a: Seq<IdView>, b: Seq<IdView>)
    ensures
        cmp_pre(b, a) == flipped(cmp_pre(a, b)),
{
    lemma_cmp_ids_flip(a, b);
}

proof fn lemma_cmp_pre_equal(a: Seq<IdView>, b: Seq<IdView>)
    ensures
        (cmp_pre(a, b) == Comparison::Equal) <==> (a == b),
{
    lemma_cmp_ids_equal(a, b);
    if a.len() == 0 && b.len() == 0 {
        assert(a =~= b);
    }
}

proof fn lemma_cmp_pre_trans(a: Seq<IdView>, b: Seq<IdView>, c: Seq<IdView>)
    requires
        cmp_pre(a, b) == Comparison::Less,
        cmp_pre(b, c) == Comparison::Less,
    ensures
        cmp_pre(a, c) == Comparison::Less,
{
    if a.len() > 0 && b.len() > 0 && c.len() > 0 {
        lemma_cmp_ids_trans(a, b, c);
    }
}

/// `compare` is reflexive: a version is `Equal` to itself.
pub proof fn lemma_compare_reflexive(a: &SemanticVersion)
    ensures
        cmp_version(a@, a@) == Comparison::Equal,
{
    lemma_cmp_pre_refl(a@.pre);
}

/// `compare` is antisymmetric: swapping the operands exchanges `Less`
/// and `Greater` and preserves `Equal`.
pub proof fn lemma_compare_antisymmetric(a: &SemanticVersion, b: &SemanticVersion)
    ensures
        cmp_version(b@, a@) == flipped(cmp_version(a@, b@)),
{
    lemma_cmp_pre_flip(a@.pre, b@.pre);
}

/// `compare` is transitive on the strict part of the order.
pub proof fn lemma_compare_transitive(a: &SemanticVersion, b: &SemanticVersion, c: &SemanticVersion)
    requires
        cmp_version(a@, b@) == Comparison::Less,
        cmp_version(b@, c@) == Comparison::Less,
    ensures
        cmp_version(a@, c@) == Comparison::Less,
{
    lemma_cmp_pre_equal(a@.pre, b@.pre);
    lemma_cmp_pre_equal(b@.pre, c@.pre);
    if cmp_pre(a@.pre, b@.pre) == Comparison::Less && cmp_pre(b@.pre, c@.pre) == Comparison::Less {
        lemma_cmp_pre_trans(a@.pre, b@.pre, c@.pre);
    }
}

/// Two versions are `Equal` exactly when they agree on everything but
/// build metadata, which the order ignores.
pub proof fn lemma_compare_equal_ignores_build(a: &SemanticVersion, b: &SemanticVersion)
    ensures
        (cmp_version(a@, b@) == Comparison::Equal) <==> (a@.major == b@.major && a@.minor
            == b@.minor && a@.patch == b@.patch && a@.pre == b@.pre),
{
    lemma_cmp_pre_equal(a@.pre, b@.pre);
}

fn compare_strs(a: &str, b: &str) -> (c: Comparison)
    ensures
        c == cmp_chars(a@, b@),
{
    let alen = a.unicode_len();
    let blen = b.unicode_len();
    let mut i: usize = 0;
    proof {
        assert(a@.skip(0) =~= a@);
        assert(b@.skip(0) =~= b@);
    }
    loop
        invariant
            i <= alen,
            i <= blen,
            alen == a@.len(),
            blen == b@.len(),
            cmp_chars(a@, b@) == cmp_chars(a@.skip(i as int), b@.skip(i as int)),
        decreases alen - i,
    {
        if i == alen && i == blen {
            return Comparison::Equal;
        }
        if i == alen {
            return Comparison::Less;
        }
        if i == blen {
            return Comparison::Greater;
        }
        let ca = a.get_char(i);
        let cb = b.get_char(i);
        if ca != cb {
            if (ca as u32) < (cb as u32) {
                return Comparison::Less;
            } else {
                return Comparison::Greater;
            }
        }
        proof {
            assert(a@.skip(i as int).drop_first() =~= a@.skip(i as int + 1));
            assert(b@.skip(i as int).drop_first() =~= b@.skip(i as int + 1));
        }
        i = i + 1;
    }
}

fn compare_idents(a: &Identifier, b: &Identifier) -> (c: Comparison)
    ensures
        c == cmp_id(a@, b@),
{
    match (a, b) {
        (Identifier::Numeric(x), Identifier::Numeric(y)) => {
            if x < y {
                Comparison::Less
            } else if x == y {
                Comparison::Equal
            } else {
                Comparison::Greater
            }
        },
        (Identifier::Numeric(_), Identifier::AlphaNumeric(_)) => Comparison::Less,
        (Identifier::AlphaNumeric(_), Identifier::Numeric(_)) => Comparison::Greater,
        (Identifier::AlphaNumeric(x), Identifier::AlphaNumeric(y)) => {
            compare_strs(x.as_str(), y.as_str())
        },
    }
}

fn compare_id_vecs(a: &Vec<Identifier>, b: &Vec<Identifier>) -> (c: Comparison)
    ensures
        c == cmp_ids(
            a@.map_values(|id: Identifier| id@),
            b@.map_values(|id: Identifier| id@),
        ),
{
    let ghost av = a@.map_values(|id: Identifier| id@);
    let ghost bv = b@.map_values(|id: Identifier| id@);
    let mut i: usize = 0;
    proof {
        assert(av.skip(0) =~= av);
        assert(bv.skip(0) =~= bv);
    }
    loop
        invariant
            i <= a.len(),
            i <= b.len(),
            av == a@.map_values(|id: Identifier| id@),
            bv == b@.map_values(|id: Identifier| id@),
            av.len() == a@.len(),
            bv.len() == b@.len(),
            cmp_ids(av, bv) == cmp_ids(av.skip(i as int), bv.skip(i as int)),
        decreases a.len() - i,
    {
        if i == a.len() && i == b.len() {
            return Comparison::Equal;
        }
        if i == a.len() {
            return Comparison::Less;
        }
        if i == b.len() {
            return Comparison::Greater;
        }
        let c = compare_idents(&a[i], &b[i]);
        match c {
            Comparison::Equal => {
                proof {
                    assert(av.skip(i as int).drop_first() =~= av.skip(i as int + 1));
                    assert(bv.skip(i as int).drop_first() =~= bv.skip(i as int + 1));
                }
                i = i + 1;
            },
            _ => {
                return c;
            },
        }
    }
}

/// Compare two semantic versions per semantic-versioning precedence.
pub fn compare(a: &SemanticVersion, b: &SemanticVersion) -> (c: Comparison)
    ensures
        c == cmp_version(a@, b@),
{
    if a.major != b.major {
        if a.major < b.major {
            Comparison::Less
        } else {
            Comparison::Greater
        }
    } else if a.minor != b.minor {
        if a.minor < b.minor {
            Comparison::Less
        } else {
            Comparison::Greater
        }
    } else if a.patch != b.patch {
        if a.patch < b.patch {
            Comparison::Less
        } else {
            Comparison::Greater
        }
    } else {
        if a.pre.len() == 0 && b.pre.len() == 0 {
            Comparison::Equal
        } else if a.pre.len() == 0 {
            Comparison::Greater
        } else if b.pre.len() == 0 {
            Comparison::Less
        } else {
            compare_id_vecs(&a.pre, &b.pre)
        }
    }
}

} // verus!
