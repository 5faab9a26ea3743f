use vstd::prelude::*;

verus! {

/// The resolved identity of one npm package: its name and its exact version.
///
/// Identities are totally ordered by the lexicographic order on the name's
/// characters, with ties broken by the same order on the version.
#[derive(Debug, Clone, PartialEq, Eq)]
pub struct NpmPackageId {
    pub name: String,
    pub version: String,
}

/// The distribution descriptor of a resolved package: the tarball URL and the
/// integrity metadata needed to fetch and verify the archive.
#[derive(Debug, Clone, PartialEq, Eq)]
pub struct NpmPackageVersionDistInfo {
    pub tarball: String,
    pub integrity: String,
}

/// One node of a resolution graph: an identity, the distribution descriptor
/// needed to fetch it, and the copy index that distinguishes duplicated
/// installs of the same identity (index `0` names the original install).
#[derive(Debug, Clone, PartialEq, Eq)]
pub struct NpmResolutionPackage {
    pub id: NpmPackageId,
    pub copy_index: usize,
    pub dist: NpmPackageVersionDistInfo,
}

/// Lexicographic "less than or equal" on character sequences, comparing
/// characters by code point.
pub open spec fn seq_char_le(a: Seq<char>, b: Seq<char>) -> bool
    decreases a.len(),
{
    if a.len() == 0 {
        true
    } else if b.len() == 0 {
        false
    } else if a[0] == b[0] {
        seq_char_le(a.skip(1), b.skip(1))
    } else {
        (a[0] as u32) < (b[0] as u32)
    }
}

/// The stable total order on package identities: by name, then by version.
pub open spec fn id_le(a: NpmPackageId, b: NpmPackageId) -> bool {
    if a.name@ == b.name@ {
        seq_char_le(a.version@, b.version@)
    } else {
        seq_char_le(a.name@, b.name@)
    }
}

/// Whether two identities denote the same (name, version) pair.
pub open spec fn same_id(a: NpmPackageId, b: NpmPackageId) -> bool {
    a.name@ == b.name@ && a.version@ == b.version@
}

pub proof fn lemma_seq_char_le_total(a: Seq<char>, b: Seq<char>)
    ensures
        seq_char_le(a, b) || seq_char_le(b, a),
    decreases a.len(),
{
    if a.len() == 0 || b.len() == 0 {
    } else if a[0] == b[0] {
        lemma_seq_char_le_total(a.skip(1), b.skip(1));
    } else {
        // distinct characters have distinct code points
        if (a[0] as u32) == (b[0] as u32) {
            vstd::utf8::char_u32_cast(a[0], a[0] as u32);
            vstd::utf8::char_u32_cast(b[0], b[0] as u32);
            assert(false);
        }
    }
}

pub proof fn lemma_seq_char_le_antisymmetric(a: Seq<char>, b: Seq<char>)
    requires
        seq_char_le(a, b),
        seq_char_le(b, a),
    ensures
        a == b,
    decreases a.len(),
{
    if a.len() == 0 {
        assert(b.len() == 0);
        assert(a =~= b);
    } else {
        assert(a[0] == b[0]);
        lemma_seq_char_le_antisymmetric(a.skip(1), b.skip(1));
        assert(a.len() == b.len());
        assert forall|i: int| 0 <= i < a.len() implies a[i] == b[i] by {
            if i > 0 {
                assert(a.skip(1)[i - 1] == b.skip(1)[i - 1]);
            }
        }
        assert(a =~= b);
    }
}

pub proof fn lemma_seq_char_le_transitive(a: Seq<char>, b: Seq<char>, c: Seq<char>)
    requires
        seq_char_le(a, b),
        seq_char_le(b, c),
    ensures
        seq_char_le(a, c),
    decreases a.len(),
{
    if a.len() == 0 || b.len() == 0 || c.len() == 0 {
    } else if a[0] == b[0] && b[0] == c[0] {
        lemma_seq_char_le_transitive(a.skip(1), b.skip(1), c.skip(1));
    }
}

pub proof fn lemma_id_le_total(a: NpmPackageId, b: NpmPackageId)
    ensures
        id_le(a, b) || id_le(b, a),
{
    lemma_seq_char_le_total(a.name@, b.name@);
    lemma_seq_char_le_total(a.version@, b.version@);
}

pub proof fn lemma_id_le_antisymmetric(a: NpmPackageId, b: NpmPackageId)
    requires
        id_le(a, b),
        id_le(b, a),
    ensures
        same_id(a, b),
{
    if a.name@ == b.name@ {
        lemma_seq_char_le_antisymmetric(a.version@, b.version@);
    } else {
        lemma_seq_char_le_antisymmetric(a.name@, b.name@);
    }
}

pub proof fn lemma_id_le_transitive(a: NpmPackageId, b: NpmPackageId, c: NpmPackageId)
    requires
        id_le(a, b),
        id_le(b, c),
    ensures
        id_le(a, c),
{
    if a.name@ == b.name@ {
        if b.name@ == c.name@ {
            lemma_seq_char_le_transitive(a.version@, b.version@, c.version@);
        }
    } else if b.name@ == c.name@ {
    } else {
        lemma_seq_char_le_transitive(a.name@, b.name@, c.name@);
        if a.name@ == c.name@ {
            lemma_seq_char_le_antisymmetric(a.name@, b.name@);
        }
    }
}

/// Lexicographic comparison of two strings, character by character.
pub fn str_le(a: &str, b: &str) -> (r: bool)
    ensures
        r == seq_char_le(a@, b@),
{
    let a_len = a.unicode_len();
    let b_len = b.unicode_len();
    let mut i: usize = 0;
    proof {
        assert(a@.skip(0) =~= a@);
        assert(b@.skip(0) =~= b@);
    }
    loop
        invariant
            0 <= i <= a_len,
            0 <= i <= b_len,
            a_len == a@.len(),
            b_len == b@.len(),
            seq_char_le(a@, b@) == seq_char_le(a@.skip(i as int), b@.skip(i as int)),
        decreases a_len - i,
    {
        if i == a_len {
            return true;
        }
        if i == b_len {
            return false;
        }
        let ca = a.get_char(i);
        let cb = b.get_char(i);
        proof {
            assert(a@.skip(i as int)[0] == a@[i as int]);
            assert(b@.skip(i as int)[0] == b@[i as int]);
        }
        if ca != cb {
            return (ca as u32) < (cb as u32);
        }
        proof {
            assert(a@.skip(i as int).skip(1) =~= a@.skip(i + 1));
            assert(b@.skip(i as int).skip(1) =~= b@.skip(i + 1));
        }
        i = i + 1;
    }
}

/// Compares two package identities in the stable total order on
/// (name, version).
pub fn id_le_exec(a: &NpmPackageId, b: &NpmPackageId) -> (r: bool)
    ensures
        r == id_le(*a, *b),
{
    if a.name == b.name {
        str_le(a.version.as_str(), b.version.as_str())
    } else {
        str_le(a.name.as_str(), b.name.as_str())
    }
}

} // verus!
