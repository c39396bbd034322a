//! Properties of the patcher, stated and proved against [`patch_spec`].

use vstd::prelude::*;

use crate::patcher::{
    elem_sep, first_array_match, key_marker_at, lemma_find_array_from_valid, patch_spec, rebuilt,
    rule_wf, with_import, PatchError,
};
use crate::scan::{contains_seq, matches_at, trimmed};

verus! {

/// The prepended import line does not itself begin an array-key marker: the
/// key followed by `:` never starts at a position inside the import statement
/// or at the newline written after it.
///
/// A rule whose import statement could be mistaken for the array pattern would
/// have its own import line rewritten, and a later application would no longer
/// be guaranteed to find the marker. Every realistic rule — an import line
/// naming a module path, a key such as `plugins` — satisfies this for all
/// contents.
pub open spec fn import_line_clear(c: Seq<u8>, import: Seq<u8>, key: Seq<u8>) -> bool {
    forall|i: int| 0 <= i <= import.len() ==> !key_marker_at(with_import(c, import), key, i)
}

/// Idempotence: a successful patch is a fixed point. Applying a rule to the
/// output of a successful application of the same rule returns that output
/// unchanged, because the output contains the marker: either the content was
/// already returned unchanged for holding it, or the prepended import line —
/// which holds the marker — survives the rewrite verbatim.
pub proof fn lemma_patch_idempotent(
    c: Seq<u8>,
    import: Seq<u8>,
    marker: Seq<u8>,
    key: Seq<u8>,
    inj: Seq<u8>,
)
    requires
        rule_wf(import, marker, key, inj),
        import_line_clear(c, import, key),
    ensures
        patch_spec(c, import, marker, key, inj) matches Ok(v) ==> patch_spec(
            v,
            import,
            marker,
            key,
            inj,
        ) == Ok::<Seq<u8>, PatchError>(v),
{
    if !contains_seq(c, marker) {
        let s = with_import(c, import);
        lemma_find_array_from_valid(s, key, 0);
        match first_array_match(s, key) {
            Some((i, k, m)) => {
                assert(key_marker_at(s, key, i));
                assert(i > import.len());
                let v = rebuilt(s, k, m, inj);
                assert(k + 1 > import.len());
                assert forall|j: int| 0 <= j < import.len() implies v[j] == import[j] by {
                    assert(v[j] == s.subrange(0, k + 1)[j]);
                    assert(s[j] == import[j]);
                }
                let p = choose|p: int| matches_at(import, p, marker);
                assert(matches_at(import, p, marker));
                assert(v.subrange(p, p + marker.len() as int) =~= marker) by {
                    assert forall|t: int| 0 <= t < marker.len() implies v[p + t] == marker[t] by {
                        assert(import.subrange(p, p + marker.len() as int)[t] == import[p + t]);
                    }
                }
                assert(matches_at(v, p, marker));
                assert(contains_seq(v, marker));
            },
            None => {},
        }
    }
}

/// Preservation: a successful patch keeps every byte outside the rewritten
/// span. The patched file agrees with the import-prepended content on every
/// byte up to and including the `[` and on every byte after the replaced `]`
/// — and that prepended content ends with the given content byte for byte —
/// while the old array body, trimmed of surrounding whitespace, reappears
/// verbatim in the output.
pub proof fn lemma_patch_preserves_surroundings(
    c: Seq<u8>,
    import: Seq<u8>,
    marker: Seq<u8>,
    key: Seq<u8>,
    inj: Seq<u8>,
    i: int,
    k: int,
    m: int,
)
    requires
        rule_wf(import, marker, key, inj),
        !contains_seq(c, marker),
        first_array_match(with_import(c, import), key) == Some((i, k, m)),
    ensures
        ({
            let s = with_import(c, import);
            let v = rebuilt(s, k, m, inj);
            &&& patch_spec(c, import, marker, key, inj) == Ok::<Seq<u8>, PatchError>(v)
            &&& s.subrange(import.len() + 1 as int, s.len() as int) == c
            &&& v.subrange(0, k + 1) == s.subrange(0, k + 1)
            &&& v.subrange(v.len() - (s.len() - (m + 1)), v.len() as int) == s.subrange(
                m + 1,
                s.len() as int,
            )
            &&& contains_seq(v, trimmed(s.subrange(k + 1, m)))
        }),
{
    let s = with_import(c, import);
    lemma_find_array_from_valid(s, key, 0);
    let v = rebuilt(s, k, m, inj);
    assert(s.subrange(import.len() + 1 as int, s.len() as int) =~= c);
    assert(v.subrange(0, k + 1) =~= s.subrange(0, k + 1));
    assert(v.subrange(v.len() - (s.len() - (m + 1)), v.len() as int) =~= s.subrange(
        m + 1,
        s.len() as int,
    ));
    let old_body = trimmed(s.subrange(k + 1, m));
    if old_body.len() == 0 {
        assert(v.subrange(0, 0) =~= old_body);
        assert(matches_at(v, 0, old_body));
    } else {
        let p = k + 1 + inj.len() + elem_sep().len();
        assert(v.subrange(p, p + old_body.len()) =~= old_body);
        assert(matches_at(v, p, old_body));
    }
}

/// Ordering: the injected expression stands directly after the `[`, before
/// the preserved old elements, which follow it behind the separator.
pub proof fn lemma_injected_expression_first(
    c: Seq<u8>,
    import: Seq<u8>,
    marker: Seq<u8>,
    key: Seq<u8>,
    inj: Seq<u8>,
    i: int,
    k: int,
    m: int,
)
    requires
        rule_wf(import, marker, key, inj),
        !contains_seq(c, marker),
        first_array_match(with_import(c, import), key) == Some((i, k, m)),
    ensures
        ({
            let s = with_import(c, import);
            let v = rebuilt(s, k, m, inj);
            &&& matches_at(v, k + 1, inj)
            &&& trimmed(s.subrange(k + 1, m)).len() > 0 ==> matches_at(
                v,
                k + 1 + inj.len() + elem_sep().len(),
                trimmed(s.subrange(k + 1, m)),
            )
        }),
{
    let s = with_import(c, import);
    lemma_find_array_from_valid(s, key, 0);
    let v = rebuilt(s, k, m, inj);
    assert(v.subrange(k + 1, k + 1 + inj.len()) =~= inj);
    assert(matches_at(v, k + 1, inj));
    let old_body = trimmed(s.subrange(k + 1, m));
    if old_body.len() > 0 {
        let p = k + 1 + inj.len() + elem_sep().len();
        assert(v.subrange(p, p + old_body.len()) =~= old_body);
        assert(matches_at(v, p, old_body));
    }
}

/// Insertion: a successful patch of content that lacked the marker produces
/// output that starts with the import statement and holds the injected
/// expression inside the rewritten array. (On absent or empty content no array
/// pattern exists, so the patcher reports `NoMatchFound` rather than producing
/// content; this law therefore speaks of the patches that succeed.)
pub proof fn lemma_patch_inserts_rule(
    c: Seq<u8>,
    import: Seq<u8>,
    marker: Seq<u8>,
    key: Seq<u8>,
    inj: Seq<u8>,
    i: int,
    k: int,
    m: int,
)
    requires
        rule_wf(import, marker, key, inj),
        import_line_clear(c, import, key),
        !contains_seq(c, marker),
        first_array_match(with_import(c, import), key) == Some((i, k, m)),
    ensures
        ({
            let s = with_import(c, import);
            let v = rebuilt(s, k, m, inj);
            &&& patch_spec(c, import, marker, key, inj) == Ok::<Seq<u8>, PatchError>(v)
            &&& matches_at(v, 0, import)
            &&& matches_at(v, k + 1, inj)
        }),
{
    let s = with_import(c, import);
    lemma_find_array_from_valid(s, key, 0);
    assert(key_marker_at(s, key, i));
    assert(i > import.len());
    let v = rebuilt(s, k, m, inj);
    assert forall|j: int| 0 <= j < import.len() implies v[j] == import[j] by {
        assert(v[j] == s.subrange(0, k + 1)[j]);
        assert(s[j] == import[j]);
    }
    assert(v.subrange(0, import.len() as int) =~= import);
    assert(matches_at(v, 0, import));
    assert(v.subrange(k + 1, k + 1 + inj.len()) =~= inj);
    assert(matches_at(v, k + 1, inj));
}

/// The no-match signal: for a well-formed rule and content that lacks the
/// marker, the patcher reports `NoMatchFound` exactly when the key is nowhere
/// followed by an array literal in the import-prepended content — never a
/// silent no-op.
pub proof fn lemma_no_match_signalled(
    c: Seq<u8>,
    import: Seq<u8>,
    marker: Seq<u8>,
    key: Seq<u8>,
    inj: Seq<u8>,
)
    requires
        rule_wf(import, marker, key, inj),
        !contains_seq(c, marker),
    ensures
        patch_spec(c, import, marker, key, inj) == Err::<Seq<u8>, PatchError>(
            PatchError::NoMatchFound,
        ) <==> first_array_match(with_import(c, import), key) is None,
{
}

/// The malformed-rule signal: the patcher reports `MalformedRule` exactly when
/// a rule field is empty or the marker does not occur in the import statement,
/// whatever the content.
pub proof fn lemma_malformed_rule_signalled(
    c: Seq<u8>,
    import: Seq<u8>,
    marker: Seq<u8>,
    key: Seq<u8>,
    inj: Seq<u8>,
)
    ensures
        patch_spec(c, import, marker, key, inj) == Err::<Seq<u8>, PatchError>(
            PatchError::MalformedRule,
        ) <==> !rule_wf(import, marker, key, inj),
{
}

/// Marker skip: content that already holds the marker is returned unchanged,
/// whatever else it holds — the patcher never rewrites an already-patched file.
pub proof fn lemma_marker_skips_patch(
    c: Seq<u8>,
    import: Seq<u8>,
    marker: Seq<u8>,
    key: Seq<u8>,
    inj: Seq<u8>,
)
    requires
        rule_wf(import, marker, key, inj),
        contains_seq(c, marker),
    ensures
        patch_spec(c, import, marker, key, inj) == Ok::<Seq<u8>, PatchError>(c),
{
}

} // verus!
