//! The idempotent text patcher.
//!
//! A [`PatchRule`] describes one edit: an import line to place at the top of a
//! file, and an expression to insert as the first element of the first
//! `key: [...]` array literal. Content that already holds the rule's marker —
//! the imported module path — counts as patched and is returned unchanged.
//! [`patch`] applies a rule to file contents and returns the rewritten
//! contents; its whole behaviour is pinned down by the specification function
//! [`patch_spec`].

use vstd::prelude::*;

use crate::scan::{
    append_bytes, append_range, bytes_at, contains_bytes, contains_seq, find_byte, is_space,
    lemma_find_byte, lemma_skip_spaces, matches_at, skip_spaces, space_byte, trim_bounds, trimmed,
};

verus! {

/// The byte `:`.
pub const COLON: u8 = 58;

/// The byte `[`.
pub const LBRACKET: u8 = 91;

/// The byte `]`.
pub const RBRACKET: u8 = 93;

/// The byte `\n`.
pub const NEWLINE: u8 = 10;

/// The byte `,`.
pub const COMMA: u8 = 44;

/// The byte ` `.
pub const SPACE: u8 = 32;

/// Why a patch was not produced.
#[derive(Clone, Copy, Debug, PartialEq, Eq, Structural)]
pub enum PatchError {
    /// A required rule field is empty, or the marker is not a substring of the
    /// import statement. A caller bug: never produced for a well-formed rule.
    MalformedRule,
    /// The array key name is nowhere followed by an array literal, so there is
    /// no place to insert the expression.
    NoMatchFound,
}

/// A declarative edit: an import line to ensure at the top of the file, the
/// identifier before the array literal to edit, and the expression to insert
/// as that array's first element.
///
/// The import statement and the injected expression must be consistent with
/// each other (the expression should name a symbol the import brings into
/// scope); the patcher does not check that, it is a contract on the caller.
#[derive(Debug)]
pub struct PatchRule {
    /// A complete import line, without its trailing newline.
    pub import_statement: Vec<u8>,
    /// The distinguishing marker of the import: the imported module path, e.g.
    /// `@tailwindcss/vite`. Content that already holds this substring counts as
    /// patched — in whatever spelling it imports the module — and is returned
    /// unchanged. Must be a substring of `import_statement`, so that patched
    /// output always holds it.
    pub marker: Vec<u8>,
    /// The identifier that precedes the array literal, e.g. `plugins`.
    pub array_key_name: Vec<u8>,
    /// The source expression to insert as a new first array element.
    pub injected_expression: Vec<u8>,
}

/// Every rule field is non-empty and the marker occurs in the import statement.
pub open spec fn rule_wf(import: Seq<u8>, marker: Seq<u8>, key: Seq<u8>, inj: Seq<u8>) -> bool {
    import.len() > 0 && marker.len() > 0 && key.len() > 0 && inj.len() > 0 && contains_seq(
        import,
        marker,
    )
}

/// The bytes of an existing file, or no bytes for an absent one.
pub open spec fn content_of(existing: Option<&[u8]>) -> Seq<u8> {
    match existing {
        Some(c) => c@,
        None => Seq::empty(),
    }
}

/// The content with the import statement and a newline placed in front.
pub open spec fn with_import(c: Seq<u8>, import: Seq<u8>) -> Seq<u8> {
    import + seq![NEWLINE] + c
}

/// The key marker occurs at `i`: the key immediately followed by `:`.
pub open spec fn key_marker_at(s: Seq<u8>, key: Seq<u8>, i: int) -> bool {
    matches_at(s, i, key) && i + key.len() < s.len() && s[i + key.len()] == COLON
}

/// The array pattern starting at `i`: the key marker, then a whitespace run,
/// then `[` at the first returned position and the nearest following `]` at
/// the second. `None` when any part is missing.
pub open spec fn array_match_at(s: Seq<u8>, key: Seq<u8>, i: int) -> Option<(int, int)> {
    if key_marker_at(s, key, i) {
        let k = skip_spaces(s, i + key.len() + 1);
        if k < s.len() && s[k] == LBRACKET {
            match find_byte(s, k + 1, RBRACKET) {
                Some(m) => Some((k, m)),
                None => None,
            }
        } else {
            None
        }
    } else {
        None
    }
}

/// The leftmost array pattern starting at or after `from`, as a triple of the
/// pattern start, the `[` position, and the `]` position.
pub open spec fn find_array_from(s: Seq<u8>, key: Seq<u8>, from: int) -> Option<(int, int, int)>
    decreases s.len() - from,
{
    if from < 0 || from >= s.len() {
        None
    } else {
        match array_match_at(s, key, from) {
            Some((k, m)) => Some((from, k, m)),
            None => find_array_from(s, key, from + 1),
        }
    }
}

/// The leftmost array pattern in `s`.
pub open spec fn first_array_match(s: Seq<u8>, key: Seq<u8>) -> Option<(int, int, int)> {
    find_array_from(s, key, 0)
}

/// What a reported array pattern guarantees: its shape, its bounds, and that
/// no pattern starts earlier; a `None` report means no pattern starts at or
/// after `from`.
pub proof fn lemma_find_array_from_valid(s: Seq<u8>, key: Seq<u8>, from: int)
    requires
        0 <= from,
    ensures
        find_array_from(s, key, from) matches Some(t) ==> {
            &&& from <= t.0
            &&& key_marker_at(s, key, t.0)
            &&& t.1 == skip_spaces(s, t.0 + key.len() + 1)
            &&& t.0 + key.len() + 1 <= t.1 < t.2 < s.len()
            &&& s[t.1] == LBRACKET
            &&& s[t.2] == RBRACKET
            &&& (forall|x: int| t.1 < x < t.2 ==> s[x] != RBRACKET)
            &&& (forall|x: int| t.0 + key.len() + 1 <= x < t.1 ==> is_space(s[x]))
            &&& (forall|x: int| from <= x < t.0 ==> array_match_at(s, key, x) is None)
        },
        find_array_from(s, key, from) is None ==> forall|x: int|
            from <= x < s.len() ==> array_match_at(s, key, x) is None,
    decreases s.len() - from,
{
    if 0 <= from < s.len() {
        match array_match_at(s, key, from) {
            Some((k, m)) => {
                lemma_skip_spaces(s, from + key.len() + 1);
                lemma_find_byte(s, k + 1, RBRACKET);
            }
            None => {
                lemma_find_array_from_valid(s, key, from + 1);
            }
        }
    }
}

/// The separator written between the injected expression and the preserved
/// old body: `,\n    `.
pub open spec fn elem_sep() -> Seq<u8> {
    seq![COMMA, NEWLINE, SPACE, SPACE, SPACE, SPACE]
}

/// The closing written after the new body: `\n  ]`.
pub open spec fn array_close() -> Seq<u8> {
    seq![NEWLINE, SPACE, SPACE, RBRACKET]
}

/// The new array body: the injected expression, then — if the old body is not
/// pure whitespace — the separator and the old body trimmed of surrounding
/// whitespace.
pub open spec fn new_body(inner: Seq<u8>, inj: Seq<u8>) -> Seq<u8> {
    if trimmed(inner).len() == 0 {
        inj
    } else {
        inj + elem_sep() + trimmed(inner)
    }
}

/// The rewritten file for a match with `[` at `k` and `]` at `m`: every byte
/// through the `[` kept, the new body, the closing, and every byte after the
/// `]` kept.
pub open spec fn rebuilt(s: Seq<u8>, k: int, m: int, inj: Seq<u8>) -> Seq<u8> {
    s.subrange(0, k + 1) + new_body(s.subrange(k + 1, m), inj) + array_close() + s.subrange(
        m + 1,
        s.len() as int,
    )
}

/// What `patch` returns for given content and rule fields: the error for a
/// malformed rule; the content unchanged when it already holds the marker;
/// otherwise the rewrite of the import-prepended content at the leftmost
/// array pattern, or the error that no pattern exists.
pub open spec fn patch_spec(
    c: Seq<u8>,
    import: Seq<u8>,
    marker: Seq<u8>,
    key: Seq<u8>,
    inj: Seq<u8>,
) -> Result<Seq<u8>, PatchError> {
    if !rule_wf(import, marker, key, inj) {
        Err(PatchError::MalformedRule)
    } else if contains_seq(c, marker) {
        Ok(c)
    } else {
        let s = with_import(c, import);
        match first_array_match(s, key) {
            Some((i, k, m)) => Ok(rebuilt(s, k, m, inj)),
            None => Err(PatchError::NoMatchFound),
        }
    }
}

/// Checks for the array pattern starting exactly at `i`: the key marker, a
/// whitespace run, `[`, and the nearest following `]`.
fn try_array_at(s: &[u8], key: &[u8], i: usize) -> (r: Option<(usize, usize)>)
    requires
        i < s@.len(),
    ensures
        match r {
            Some(t) => {
                &&& array_match_at(s@, key@, i as int) == Some((t.0 as int, t.1 as int))
                &&& i + key@.len() < t.0 < t.1 < s@.len()
            },
            None => array_match_at(s@, key@, i as int) is None,
        },
{
    if !bytes_at(s, i, key) {
        return None;
    }
    if key.len() >= s.len() - i {
        return None;
    }
    if s[i + key.len()] != COLON {
        return None;
    }
    let start: usize = i + key.len() + 1;
    let mut k: usize = start;
    while k < s.len() && space_byte(s[k])
        invariant
            start <= k <= s@.len(),
            skip_spaces(s@, start as int) == skip_spaces(s@, k as int),
        decreases s@.len() - k,
    {
        k += 1;
    }
    proof {
        assert(skip_spaces(s@, k as int) == k as int);
    }
    if k == s.len() {
        return None;
    }
    if s[k] != LBRACKET {
        return None;
    }
    let mut m: usize = k + 1;
    while m < s.len() && s[m] != RBRACKET
        invariant
            k + 1 <= m <= s@.len(),
            find_byte(s@, k + 1 as int, RBRACKET) == find_byte(s@, m as int, RBRACKET),
        decreases s@.len() - m,
    {
        m += 1;
    }
    if m == s.len() {
        proof {
            assert(find_byte(s@, m as int, RBRACKET) is None);
        }
        return None;
    }
    proof {
        assert(find_byte(s@, m as int, RBRACKET) == Some(m as int));
    }
    Some((k, m))
}

/// Finds the leftmost array pattern in `s`, as the positions of the pattern
/// start, the `[`, and the nearest following `]`.
pub fn find_array(s: &[u8], key: &[u8]) -> (r: Option<(usize, usize, usize)>)
    ensures
        match r {
            Some(t) => first_array_match(s@, key@) == Some((t.0 as int, t.1 as int, t.2 as int)),
            None => first_array_match(s@, key@) is None,
        },
{
    let mut from: usize = 0;
    while from < s.len()
        invariant
            0 <= from <= s@.len(),
            find_array_from(s@, key@, 0) == find_array_from(s@, key@, from as int),
        decreases s@.len() - from,
    {
        match try_array_at(s, key, from) {
            Some((k, m)) => {
                proof {
                    assert(find_array_from(s@, key@, from as int) == Some(
                        (from as int, k as int, m as int),
                    ));
                }
                return Some((from, k, m));
            }
            None => {
                proof {
                    assert(find_array_from(s@, key@, from as int) == find_array_from(
                        s@,
                        key@,
                        from as int + 1,
                    ));
                }
            }
        }
        from += 1;
    }
    proof {
        assert(find_array_from(s@, key@, from as int) is None);
    }
    None
}

/// Applies `rule` to the contents of the target file — `None` stands for an
/// absent file and is treated as empty content — and returns the rewritten
/// contents, or the reason no rewrite was produced.
///
/// The result is exactly [`patch_spec`] of the content and the rule fields:
/// unchanged content when the marker is already present, the rewritten content
/// otherwise, [`PatchError::MalformedRule`] if and only if a rule field is
/// empty or the marker does not occur in the import statement, and
/// [`PatchError::NoMatchFound`] if and only if the rule is well formed, the
/// marker is absent, and no array pattern occurs.
pub fn patch(existing: Option<&[u8]>, rule: &PatchRule) -> (r: Result<Vec<u8>, PatchError>)
    ensures
        match r {
            Ok(v) => patch_spec(
                content_of(existing),
                rule.import_statement@,
                rule.marker@,
                rule.array_key_name@,
                rule.injected_expression@,
            ) == Ok::<Seq<u8>, PatchError>(v@),
            Err(e) => patch_spec(
                content_of(existing),
                rule.import_statement@,
                rule.marker@,
                rule.array_key_name@,
                rule.injected_expression@,
            ) == Err::<Seq<u8>, PatchError>(e),
        },
{
    if rule.import_statement.len() == 0 || rule.marker.len() == 0
        || rule.array_key_name.len() == 0 || rule.injected_expression.len() == 0 {
        return Err(PatchError::MalformedRule);
    }
    if !contains_bytes(rule.import_statement.as_slice(), rule.marker.as_slice()) {
        return Err(PatchError::MalformedRule);
    }
    match existing {
        Some(c) => {
            if contains_bytes(c, rule.marker.as_slice()) {
                let mut unchanged: Vec<u8> = Vec::new();
                append_bytes(&mut unchanged, c);
                proof {
                    assert(unchanged@ =~= c@);
                }
                return Ok(unchanged);
            }
        },
        None => {},
    }
    let mut s: Vec<u8> = Vec::new();
    append_bytes(&mut s, rule.import_statement.as_slice());
    s.push(NEWLINE);
    match existing {
        Some(c) => {
            append_bytes(&mut s, c);
        },
        None => {},
    }
    proof {
        assert(s@ =~= with_import(content_of(existing), rule.import_statement@));
    }
    match find_array(s.as_slice(), rule.array_key_name.as_slice()) {
        None => Err(PatchError::NoMatchFound),
        Some((_start, k, m)) => {
            proof {
                lemma_find_array_from_valid(s@, rule.array_key_name@, 0);
            }
            let out = build_rewrite(s.as_slice(), k, m, rule.injected_expression.as_slice());
            Ok(out)
        },
    }
}

/// Builds the rewritten file for a match with `[` at `k` and `]` at `m`: the
/// prefix through the `[`, the new body, the closing, the suffix after the `]`.
fn build_rewrite(s: &[u8], k: usize, m: usize, inj: &[u8]) -> (out: Vec<u8>)
    requires
        k < m < s@.len(),
    ensures
        out@ == rebuilt(s@, k as int, m as int, inj@),
{
    let mut inner: Vec<u8> = Vec::new();
    append_range(&mut inner, s, k + 1, m);
    let bounds = trim_bounds(inner.as_slice());
    let ghost body = new_body(s@.subrange(k + 1 as int, m as int), inj@);
    let mut out: Vec<u8> = Vec::new();
    append_range(&mut out, s, 0, k + 1);
    proof {
        assert(out@ =~= s@.subrange(0, k + 1 as int));
    }
    append_bytes(&mut out, inj);
    if bounds.0 < bounds.1 {
        out.push(COMMA);
        out.push(NEWLINE);
        out.push(SPACE);
        out.push(SPACE);
        out.push(SPACE);
        out.push(SPACE);
        append_range(&mut out, inner.as_slice(), bounds.0, bounds.1);
        proof {
            assert(out@ =~= s@.subrange(0, k + 1 as int) + body);
        }
    } else {
        proof {
            assert(out@ =~= s@.subrange(0, k + 1 as int) + body);
        }
    }
    out.push(NEWLINE);
    out.push(SPACE);
    out.push(SPACE);
    out.push(RBRACKET);
    proof {
        assert(out@ =~= s@.subrange(0, k + 1 as int) + body + array_close());
    }
    let n = s.len();
    append_range(&mut out, s, m + 1, n);
    proof {
        assert(out@ =~= rebuilt(s@, k as int, m as int, inj@));
    }
    out
}

} // verus!
