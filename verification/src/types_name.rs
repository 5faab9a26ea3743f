use vstd::prelude::*;

verus! {

/// The `@types/` namespace prefix, as a character sequence.
pub open spec fn types_prefix() -> Seq<char> {
    seq!['@', 't', 'y', 'p', 'e', 's', '/']
}

/// Whether a package name already lies in the `@types/` namespace.
pub open spec fn has_types_prefix(s: Seq<char>) -> bool {
    s.len() >= types_prefix().len() && s.take(types_prefix().len() as int) == types_prefix()
}

/// Replaces every `/` with two underscores — the naming convention by which
/// a scoped package maps into the community type-declarations registry.
pub open spec fn replace_slashes(s: Seq<char>) -> Seq<char>
    decreases s.len(),
{
    if s.len() == 0 {
        Seq::empty()
    } else if s[0] == '/' {
        seq!['_', '_'] + replace_slashes(s.skip(1))
    } else {
        seq![s[0]] + replace_slashes(s.skip(1))
    }
}

/// The name of the companion type-declarations package for a package named
/// `s`: the `@types/` prefix, then `s` with every `/` turned into `__`.
pub open spec fn types_name(s: Seq<char>) -> Seq<char> {
    types_prefix() + replace_slashes(s)
}

proof fn lemma_replace_slashes_snoc(s: Seq<char>, c: char)
    ensures
        replace_slashes(s.push(c)) == replace_slashes(s) + (if c == '/' {
            seq!['_', '_']
        } else {
            seq![c]
        }),
    decreases s.len(),
{
    let tail = if c == '/' {
        seq!['_', '_']
    } else {
        seq![c]
    };
    if s.len() == 0 {
        assert(s.push(c)[0] == c);
        assert(s.push(c).skip(1) =~= Seq::<char>::empty());
        assert(s =~= Seq::<char>::empty());
        assert(replace_slashes(Seq::<char>::empty()) == Seq::<char>::empty());
        assert(replace_slashes(s.push(c)) =~= replace_slashes(s) + tail);
    } else {
        assert(s.push(c)[0] == s[0]);
        assert(s.push(c).skip(1) =~= s.skip(1).push(c));
        lemma_replace_slashes_snoc(s.skip(1), c);
        assert(replace_slashes(s.push(c)) =~= replace_slashes(s) + tail);
    }
}

proof fn lemma_replace_slashes_no_slash(s: Seq<char>)
    ensures
        forall|i: int|
            0 <= i < replace_slashes(s).len() ==> #[trigger] replace_slashes(s)[i] != '/',
    decreases s.len(),
{
    if s.len() > 0 {
        lemma_replace_slashes_no_slash(s.skip(1));
        let head = if s[0] == '/' {
            seq!['_', '_']
        } else {
            seq![s[0]]
        };
        assert forall|i: int|
            0 <= i < replace_slashes(s).len() implies #[trigger] replace_slashes(s)[i] != '/' by {
            if i >= head.len() {
                assert(replace_slashes(s)[i] == replace_slashes(s.skip(1))[i - head.len()]);
            }
        }
    }
}

/// Law: whatever the input, its types package name begins with `@types/`
/// and holds no `/` after that prefix.
pub proof fn lemma_types_name_shape(s: Seq<char>)
    ensures
        types_name(s).len() >= types_prefix().len(),
        types_name(s).take(types_prefix().len() as int) == types_prefix(),
        forall|i: int|
            types_prefix().len() <= i < types_name(s).len() ==> #[trigger] types_name(s)[i] != '/',
{
    lemma_replace_slashes_no_slash(s);
    assert(types_name(s).take(types_prefix().len() as int) =~= types_prefix());
    assert forall|i: int|
        types_prefix().len() <= i < types_name(s).len() implies #[trigger] types_name(s)[i]
        != '/' by {
        assert(types_name(s)[i] == replace_slashes(s)[i - types_prefix().len()]);
    }
}

/// Relies on String::push: appends one character at the end of the string.
#[verifier::external_body]
fn push_char(s: &mut String, c: char)
    ensures
        final(s)@ == old(s)@.push(c),
{
    s.push(c);
}

/// Gets the name of the corresponding `@types/...` package for the provided
/// package name. The caller keeps names already in the `@types/` namespace
/// out.
pub fn types_package_name(package_name: &str) -> (r: String)
    requires
        !has_types_prefix(package_name@),
    ensures
        r@ == types_name(package_name@),
{
    let mut out = String::from_str("@types/");
    proof {
        reveal_strlit("@types/");
        assert(out@ =~= types_prefix());
        assert(package_name@.take(0) =~= Seq::<char>::empty());
        assert(out@ =~= types_prefix() + replace_slashes(package_name@.take(0)));
    }
    let n = package_name.unicode_len();
    let mut i: usize = 0;
    while i < n
        invariant
            0 <= i <= n,
            n == package_name@.len(),
            out@ == types_prefix() + replace_slashes(package_name@.take(i as int)),
        decreases n - i,
    {
        let ghost prev = out@;
        let c = package_name.get_char(i);
        if c == '/' {
            out.append("__");
            proof {
                reveal_strlit("__");
                assert(out@ =~= prev + seq!['_', '_']);
            }
        } else {
            push_char(&mut out, c);
            proof {
                assert(out@ =~= prev + seq![c]);
            }
        }
        proof {
            assert(package_name@.take(i + 1) =~= package_name@.take(i as int).push(
                package_name@[i as int],
            ));
            lemma_replace_slashes_snoc(package_name@.take(i as int), package_name@[i as int]);
            assert(out@ =~= types_prefix() + replace_slashes(package_name@.take(i + 1)));
        }
        i = i + 1;
    }
    proof {
        assert(package_name@.take(n as int) =~= package_name@);
    }
    out
}

} // verus!
