//! Repair of byte-level tokenizer artifacts in decoded text.
//!
//! Byte-level tokenizers print some bytes as stand-in characters: a space as
//! `\u{120}`, a newline as `\u{10A}`, a tab as `\u{109}`, and the three bytes
//! of curly punctuation as `\u{E2}\u{122}` followed by one more character.
//! Normalization reads the text once from left to right and replaces each
//! artifact that starts at the current position; a double newline marker is
//! tried before a single one.
use vstd::prelude::*;
use crate::text::{string_of, push_str_chars};

verus! {

/// Length of the artifact at the start of `s`, or 0 where none starts there.
pub open spec fn artifact_len(s: Seq<char>) -> int {
    if s.len() >= 1 && s[0] == '\u{120}' {
        1
    } else if s.len() >= 2 && s[0] == '\u{10A}' && s[1] == '\u{10A}' {
        2
    } else if s.len() >= 1 && s[0] == '\u{10A}' {
        1
    } else if s.len() >= 1 && s[0] == '\u{109}' {
        1
    } else if s.len() >= 3 && s[0] == '\u{E2}' && s[1] == '\u{122}' && (s[2] == '\u{13B}'
        || s[2] == '\u{13E}' || s[2] == '\u{13F}') {
        3
    } else {
        0
    }
}

/// The plain text that the artifact at the start of `s` stands for.
pub open spec fn artifact_text(s: Seq<char>) -> Seq<char> {
    if s.len() >= 1 && s[0] == '\u{120}' {
        seq![' ']
    } else if s.len() >= 2 && s[0] == '\u{10A}' && s[1] == '\u{10A}' {
        seq!['\n', '\n']
    } else if s.len() >= 1 && s[0] == '\u{10A}' {
        seq!['\n']
    } else if s.len() >= 1 && s[0] == '\u{109}' {
        seq!['\t']
    } else if s.len() >= 3 && s[0] == '\u{E2}' && s[1] == '\u{122}' && s[2] == '\u{13B}' {
        seq!['\'']
    } else if s.len() >= 3 && s[0] == '\u{E2}' && s[1] == '\u{122}' && s[2] == '\u{13E}' {
        seq!['\u{201C}']
    } else if s.len() >= 3 && s[0] == '\u{E2}' && s[1] == '\u{122}' && s[2] == '\u{13F}' {
        seq!['\u{201D}']
    } else {
        seq![]
    }
}

/// The normalized form of `s`.
pub open spec fn normalized(s: Seq<char>) -> Seq<char>
    decreases s.len(),
{
    if s.len() == 0 {
        seq![]
    } else if artifact_len(s) > 0 {
        artifact_text(s) + normalized(s.skip(artifact_len(s)))
    } else {
        seq![s[0]] + normalized(s.skip(1))
    }
}

/// A character that can begin an artifact.
pub open spec fn is_artifact_lead(c: char) -> bool {
    c == '\u{120}' || c == '\u{10A}' || c == '\u{109}' || c == '\u{E2}'
}

/// A character that normalization writes in place of an artifact.
pub open spec fn is_replacement(c: char) -> bool {
    c == ' ' || c == '\n' || c == '\t' || c == '\'' || c == '\u{201C}' || c == '\u{201D}'
}

proof fn lemma_plain_char_prefix(c: char, t: Seq<char>)
    requires
        !is_artifact_lead(c),
    ensures
        normalized(seq![c] + t) == seq![c] + normalized(t),
{
    let x = seq![c] + t;
    assert(x[0] == c);
    assert(x.skip(1) =~= t);
}

proof fn lemma_plain_prefix(r: Seq<char>, t: Seq<char>)
    requires
        forall|k: int| 0 <= k < r.len() ==> !is_artifact_lead(#[trigger] r[k]),
    ensures
        normalized(r + t) == r + normalized(t),
    decreases r.len(),
{
    if r.len() == 0 {
        assert(r + t =~= t);
        assert(r + normalized(t) =~= normalized(t));
    } else {
        let rest = r.skip(1);
        assert(r + t =~= seq![r[0]] + (rest + t));
        lemma_plain_char_prefix(r[0], rest + t);
        assert forall|k: int| 0 <= k < rest.len() implies !is_artifact_lead(#[trigger] rest[k]) by {
            assert(rest[k] == r[k + 1]);
        }
        lemma_plain_prefix(rest, t);
        assert(seq![r[0]] + (rest + normalized(t)) =~= r + normalized(t));
    }
}

proof fn lemma_normalized_head(t: Seq<char>)
    requires
        normalized(t).len() > 0,
        !is_replacement(normalized(t)[0]),
    ensures
        t.len() > 0,
        artifact_len(t) == 0,
        t[0] == normalized(t)[0],
        normalized(t) == seq![t[0]] + normalized(t.skip(1)),
{
    if t.len() > 0 && artifact_len(t) > 0 {
        assert(normalized(t)[0] == artifact_text(t)[0]);
    }
}

/// Normalization is idempotent: normalizing normalized text again changes
/// nothing.
pub proof fn lemma_normalize_idempotent(s: Seq<char>)
    ensures
        normalized(normalized(s)) == normalized(s),
    decreases s.len(),
{
    if s.len() == 0 {
    } else if artifact_len(s) > 0 {
        let n = artifact_len(s);
        let r = artifact_text(s);
        assert forall|k: int| 0 <= k < r.len() implies !is_artifact_lead(#[trigger] r[k]) by {}
        lemma_plain_prefix(r, normalized(s.skip(n)));
        lemma_normalize_idempotent(s.skip(n));
    } else if !is_artifact_lead(s[0]) {
        lemma_plain_char_prefix(s[0], normalized(s.skip(1)));
        lemma_normalize_idempotent(s.skip(1));
    } else {
        let s1 = s.skip(1);
        let m = normalized(s1);
        let x = seq![s[0]] + m;
        if m.len() >= 2 && m[0] == '\u{122}' && (m[1] == '\u{13B}' || m[1] == '\u{13E}' || m[1]
            == '\u{13F}') {
            lemma_normalized_head(s1);
            let s2 = s1.skip(1);
            assert(normalized(s2)[0] == m[1]);
            lemma_normalized_head(s2);
            assert(s[1] == s1[0]);
            assert(s[2] == s2[0]);
            assert(false);
        }
        assert(artifact_len(x) == 0);
        assert(x.skip(1) =~= m);
        lemma_normalize_idempotent(s1);
    }
}

/// Whether no artifact starts at any position of `s`.
pub open spec fn artifact_free(s: Seq<char>) -> bool {
    forall|i: int| 0 <= i < s.len() ==> artifact_len(#[trigger] s.skip(i)) == 0
}

proof fn lemma_fixed_point_is_artifact_free(t: Seq<char>)
    requires
        normalized(t) == t,
    ensures
        artifact_free(t),
    decreases t.len(),
{
    if t.len() > 0 {
        if artifact_len(t) > 0 {
            assert(normalized(t)[0] == artifact_text(t)[0]);
            assert(false);
        }
        let t1 = t.skip(1);
        assert(normalized(t) == seq![t[0]] + normalized(t1));
        assert(normalized(t1) =~= t1) by {
            assert(t.skip(1) =~= normalized(t).skip(1));
        }
        lemma_fixed_point_is_artifact_free(t1);
        assert forall|i: int| 0 <= i < t.len() implies artifact_len(#[trigger] t.skip(i)) == 0 by {
            if i > 0 {
                assert(t.skip(i) =~= t1.skip(i - 1));
            } else {
                assert(t.skip(0) =~= t);
            }
        }
    }
}

/// Normalized text holds no artifact at any position.
pub proof fn lemma_normalized_is_artifact_free(s: Seq<char>)
    ensures
        artifact_free(normalized(s)),
{
    lemma_normalize_idempotent(s);
    lemma_fixed_point_is_artifact_free(normalized(s));
}

/// A double newline marker between artifact-free texts becomes exactly one
/// newline pair, and the texts around it are kept.
pub proof fn lemma_double_newline_once(x: Seq<char>, y: Seq<char>)
    requires
        artifact_free(x),
        artifact_free(y),
    ensures
        normalized(x + seq!['\u{10A}', '\u{10A}'] + y) == x + seq!['\n', '\n'] + y,
    decreases x.len(),
{
    let d = seq!['\u{10A}', '\u{10A}'];
    let whole = x + d + y;
    if x.len() == 0 {
        assert(whole =~= d + y);
        assert(artifact_len(whole) == 2);
        assert(whole.skip(2) =~= y);
        lemma_artifact_free_fixed(y);
        assert(x + seq!['\n', '\n'] + y =~= seq!['\n', '\n'] + y);
    } else {
        assert(x.skip(0) =~= x);
        assert(artifact_len(x) == 0);
        assert(whole[0] == x[0]);
        if x.len() == 1 {
            assert(whole[1] == '\u{10A}');
        } else if x.len() == 2 {
            assert(whole[1] == x[1]);
            assert(whole[2] == '\u{10A}');
        } else {
            assert(whole[1] == x[1]);
            assert(whole[2] == x[2]);
        }
        assert(artifact_len(whole) == 0);
        let x1 = x.skip(1);
        assert forall|i: int| 0 <= i < x1.len() implies artifact_len(#[trigger] x1.skip(i)) == 0 by {
            assert(x1.skip(i) =~= x.skip(i + 1));
        }
        assert(whole.skip(1) =~= x1 + d + y);
        lemma_double_newline_once(x1, y);
        assert(x + seq!['\n', '\n'] + y =~= seq![x[0]] + (x1 + seq!['\n', '\n'] + y));
    }
}

proof fn lemma_artifact_free_fixed(t: Seq<char>)
    requires
        artifact_free(t),
    ensures
        normalized(t) == t,
    decreases t.len(),
{
    if t.len() > 0 {
        assert(t.skip(0) =~= t);
        let t1 = t.skip(1);
        assert forall|i: int| 0 <= i < t1.len() implies artifact_len(#[trigger] t1.skip(i)) == 0 by {
            assert(t1.skip(i) =~= t.skip(i + 1));
        }
        lemma_artifact_free_fixed(t1);
        assert(seq![t[0]] + t1 =~= t);
    }
}

/// The artifact at position `i` of `c`: its length (0 where none) and the
/// text it stands for.
fn artifact_at(c: &Vec<char>, i: usize) -> (r: (usize, Vec<char>))
    requires
        i < c.len(),
    ensures
        r.0 == artifact_len(c@.skip(i as int)),
        r.1@ == artifact_text(c@.skip(i as int)),
{
    let ghost s = c@.skip(i as int);
    let n = c.len() - i;
    let a = c[i];
    let b = if n >= 2 {
        c[i + 1]
    } else {
        ' '
    };
    let d = if n >= 3 {
        c[i + 2]
    } else {
        ' '
    };
    let r = if a == '\u{120}' {
        (1, vec![' '])
    } else if n >= 2 && a == '\u{10A}' && b == '\u{10A}' {
        (2, vec!['\n', '\n'])
    } else if a == '\u{10A}' {
        (1, vec!['\n'])
    } else if a == '\u{109}' {
        (1, vec!['\t'])
    } else if n >= 3 && a == '\u{E2}' && b == '\u{122}' && d == '\u{13B}' {
        (3, vec!['\''])
    } else if n >= 3 && a == '\u{E2}' && b == '\u{122}' && d == '\u{13E}' {
        (3, vec!['\u{201C}'])
    } else if n >= 3 && a == '\u{E2}' && b == '\u{122}' && d == '\u{13F}' {
        (3, vec!['\u{201D}'])
    } else {
        (0, Vec::new())
    };
    assert(r.1@ =~= artifact_text(s));
    r
}

/// Replaces the tokenizer artifacts in `raw` by the plain text they stand for.
pub fn normalize(raw: &str) -> (r: String)
    ensures
        r@ == normalized(raw@),
{
    let mut c: Vec<char> = Vec::new();
    push_str_chars(&mut c, raw);
    assert(c@ =~= raw@);
    let mut out: Vec<char> = Vec::new();
    let mut i: usize = 0;
    assert(c@.skip(0) =~= c@);
    while i < c.len()
        invariant
            c@ == raw@,
            i <= c.len(),
            normalized(c@) == out@ + normalized(c@.skip(i as int)),
        decreases c.len() - i,
    {
        let ghost s = c@.skip(i as int);
        let ghost before = out@;
        let (n, rep) = artifact_at(&c, i);
        if n > 0 {
            let mut k: usize = 0;
            while k < rep.len()
                invariant
                    out@ == before + rep@.subrange(0, k as int),
                    k <= rep.len(),
                decreases rep.len() - k,
            {
                out.push(rep[k]);
                k = k + 1;
                assert(out@ =~= before + rep@.subrange(0, k as int));
            }
            assert(rep@.subrange(0, rep@.len() as int) =~= rep@);
            assert(s.skip(n as int) =~= c@.skip(i + n));
            assert(before + (rep@ + normalized(s.skip(n as int))) =~= out@ + normalized(
                s.skip(n as int),
            ));
            i = i + n;
        } else {
            out.push(c[i]);
            assert(s.skip(1) =~= c@.skip(i + 1));
            assert(before + (seq![s[0]] + normalized(s.skip(1))) =~= out@ + normalized(
                s.skip(1),
            ));
            i = i + 1;
        }
    }
    assert(c@.skip(i as int) =~= Seq::<char>::empty());
    assert(out@ + Seq::<char>::empty() =~= out@);
    let r = string_of(&out, 0, out.len());
    assert(out@.subrange(0, out@.len() as int) =~= out@);
    r
}

} // verus!
