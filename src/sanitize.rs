use vstd::prelude::*;
use crate::text::{chars_of, string_of_range};

verus! {

/// The escape character that opens a control sequence.
pub const ESC: char = '\x1b';

/// A parameter byte: `0x30..=0x3F` (digits, `:;<=>?`).
pub open spec fn is_param(c: char) -> bool {
    0x30 <= (c as u32) <= 0x3f
}

/// An intermediate byte: `0x20..=0x2F` (space and `!"#$%&'()*+,-./`).
pub open spec fn is_inter(c: char) -> bool {
    0x20 <= (c as u32) <= 0x2f
}

/// A final byte: `0x40..=0x7E` (`@`, letters, `[\]^_` and the like).
pub open spec fn is_final(c: char) -> bool {
    0x40 <= (c as u32) <= 0x7e
}

/// First index at or after `j` whose character is not a parameter byte.
pub open spec fn params_end(s: Seq<char>, j: int) -> int
    decreases s.len() - j,
{
    if 0 <= j < s.len() && is_param(s[j]) {
        params_end(s, j + 1)
    } else {
        j
    }
}

/// First index at or after `j` whose character is not an intermediate byte.
pub open spec fn inters_end(s: Seq<char>, j: int) -> int
    decreases s.len() - j,
{
    if 0 <= j < s.len() && is_inter(s[j]) {
        inters_end(s, j + 1)
    } else {
        j
    }
}

/// Length of the control sequence `ESC [ param* inter* final` that starts at
/// index `i` of `s`, or 0 when none starts there.
pub open spec fn seq_len_at(s: Seq<char>, i: int) -> nat {
    if 0 <= i && i + 1 < s.len() && s[i] == ESC && s[i + 1] == '[' {
        let q = inters_end(s, params_end(s, i + 2));
        if q < s.len() && is_final(s[q]) {
            (q + 1 - i) as nat
        } else {
            0
        }
    } else {
        0
    }
}

/// `s[i..]` with control sequences removed, scanning left to right: a sequence
/// that starts at the scan position is skipped whole, any other character is kept.
pub open spec fn strip_from(s: Seq<char>, i: int) -> Seq<char>
    decreases s.len() - i,
{
    if i < 0 || i >= s.len() {
        Seq::empty()
    } else if seq_len_at(s, i) > 0 && i + seq_len_at(s, i) <= s.len() {
        strip_from(s, i + seq_len_at(s, i))
    } else {
        seq![s[i]] + strip_from(s, i + 1)
    }
}

/// One left-to-right pass of removal over `s`.
pub open spec fn stripped_once(s: Seq<char>) -> Seq<char> {
    strip_from(s, 0)
}

/// `s` holds no complete control sequence at any position.
pub open spec fn free_of_sequences(s: Seq<char>) -> bool {
    forall|k: int| 0 <= k < s.len() ==> #[trigger] seq_len_at(s, k) == 0
}

proof fn lemma_params_end(s: Seq<char>, j: int)
    requires
        0 <= j <= s.len(),
    ensures
        j <= params_end(s, j) <= s.len(),
        forall|k: int| j <= k < params_end(s, j) ==> is_param(#[trigger] s[k]),
    decreases s.len() - j,
{
    if j < s.len() && is_param(s[j]) {
        lemma_params_end(s, j + 1);
    }
}

proof fn lemma_inters_end(s: Seq<char>, j: int)
    requires
        0 <= j <= s.len(),
    ensures
        j <= inters_end(s, j) <= s.len(),
        forall|k: int| j <= k < inters_end(s, j) ==> is_inter(#[trigger] s[k]),
    decreases s.len() - j,
{
    if j < s.len() && is_inter(s[j]) {
        lemma_inters_end(s, j + 1);
    }
}

proof fn lemma_seq_len_bound(s: Seq<char>, i: int)
    requires
        0 <= i <= s.len(),
    ensures
        i + seq_len_at(s, i) <= s.len(),
        seq_len_at(s, i) > 0 ==> s[i] == ESC,
{
    if 0 <= i && i + 1 < s.len() && s[i] == ESC && s[i + 1] == '[' {
        lemma_params_end(s, i + 2);
        lemma_inters_end(s, params_end(s, i + 2));
    }
}

/// Where `s` holds no complete control sequence, stripping leaves `s[i..]` as it is.
proof fn lemma_strip_free(s: Seq<char>, i: int)
    requires
        0 <= i <= s.len(),
        free_of_sequences(s),
    ensures
        strip_from(s, i) == s.subrange(i, s.len() as int),
    decreases s.len() - i,
{
    if i < s.len() {
        assert(seq_len_at(s, i) == 0);
        lemma_strip_free(s, i + 1);
        assert(s.subrange(i, s.len() as int) =~= seq![s[i]] + s.subrange(i + 1, s.len() as int));
    } else {
        assert(s.subrange(i, s.len() as int) =~= Seq::<char>::empty());
    }
}

/// Text without an escape character passes through the sanitizer unchanged.
pub proof fn lemma_plain_text_unchanged(s: Seq<char>)
    requires
        !s.contains(ESC),
    ensures
        free_of_sequences(s),
        sanitized(s) == s,
{
    assert forall|k: int| 0 <= k < s.len() implies #[trigger] seq_len_at(s, k) == 0 by {
        if seq_len_at(s, k) > 0 {
            lemma_seq_len_bound(s, k);
            assert(s.contains(ESC));
        }
    }
}

/// Stripping never lengthens, and strictly shortens wherever a complete
/// sequence starts at or after `i`.
proof fn lemma_strip_shortens(s: Seq<char>, i: int)
    requires
        0 <= i <= s.len(),
    ensures
        strip_from(s, i).len() <= s.len() - i,
        (exists|k: int| i <= k < s.len() && #[trigger] seq_len_at(s, k) > 0) ==> strip_from(
            s,
            i,
        ).len() < s.len() - i,
    decreases s.len() - i,
{
    if i < s.len() {
        lemma_seq_len_bound(s, i);
        if seq_len_at(s, i) > 0 {
            lemma_strip_shortens(s, i + seq_len_at(s, i));
        } else {
            lemma_strip_shortens(s, i + 1);
            if exists|k: int| i <= k < s.len() && #[trigger] seq_len_at(s, k) > 0 {
                let k = choose|k: int| i <= k < s.len() && #[trigger] seq_len_at(s, k) > 0;
                assert(i + 1 <= k);
            }
        }
    }
}

/// A text free of sequences is kept by a pass; any other is shortened by it.
proof fn lemma_pass_fixes_or_shortens(s: Seq<char>)
    ensures
        free_of_sequences(s) ==> stripped_once(s) == s,
        !free_of_sequences(s) ==> stripped_once(s).len() < s.len(),
{
    if free_of_sequences(s) {
        lemma_strip_free(s, 0);
        assert(s.subrange(0, s.len() as int) =~= s);
    } else {
        let k = choose|k: int| 0 <= k < s.len() && #[trigger] seq_len_at(s, k) != 0;
        lemma_strip_shortens(s, 0);
    }
}

/// `s` with every control sequence removed: passes are repeated until none is
/// left, since removing one sequence can join its neighbours into a new one
/// (`ESC [ ESC [ 0 m m` gives `ESC [ m` after one pass, nothing after two).
pub open spec fn sanitized(s: Seq<char>) -> Seq<char>
    decreases s.len(),
    via sanitized_decreases
{
    if free_of_sequences(s) {
        s
    } else {
        sanitized(stripped_once(s))
    }
}

#[via_fn]
proof fn sanitized_decreases(s: Seq<char>) {
    lemma_pass_fixes_or_shortens(s);
}

/// The sanitized text holds no complete control sequence.
pub proof fn lemma_sanitized_free(s: Seq<char>)
    ensures
        free_of_sequences(sanitized(s)),
    decreases s.len(),
{
    if !free_of_sequences(s) {
        lemma_pass_fixes_or_shortens(s);
        lemma_sanitized_free(stripped_once(s));
    }
}

/// Sanitizing a second time changes nothing, for every input.
pub proof fn lemma_sanitize_idempotent(s: Seq<char>)
    ensures
        sanitized(sanitized(s)) == sanitized(s),
{
    lemma_sanitized_free(s);
}

/// Exec form of `params_end` / `inters_end` for the given class.
fn class_end(cs: &Vec<char>, j: usize, lo: u32, hi: u32) -> (r: usize)
    requires
        j <= cs@.len(),
        (lo == 0x30 && hi == 0x3f) || (lo == 0x20 && hi == 0x2f),
    ensures
        lo == 0x30 ==> r == params_end(cs@, j as int),
        lo == 0x20 ==> r == inters_end(cs@, j as int),
        j <= r <= cs@.len(),
{
    let mut k: usize = j;
    while k < cs.len() && lo <= cs[k] as u32 && cs[k] as u32 <= hi
        invariant
            j <= k <= cs@.len(),
            (lo == 0x30 && hi == 0x3f) || (lo == 0x20 && hi == 0x2f),
            lo == 0x30 ==> params_end(cs@, j as int) == params_end(cs@, k as int),
            lo == 0x20 ==> inters_end(cs@, j as int) == inters_end(cs@, k as int),
        decreases cs@.len() - k,
    {
        k = k + 1;
    }
    k
}

/// Length of the control sequence starting at index `i`, or 0.
fn sequence_len_at(cs: &Vec<char>, i: usize) -> (r: usize)
    requires
        i < cs@.len(),
    ensures
        r == seq_len_at(cs@, i as int),
        i + r <= cs@.len(),
{
    proof {
        lemma_seq_len_bound(cs@, i as int);
    }
    if cs.len() - i > 1 && cs[i] == ESC && cs[i + 1] == '[' {
        let p = class_end(cs, i + 2, 0x30, 0x3f);
        let q = class_end(cs, p, 0x20, 0x2f);
        if q < cs.len() && 0x40 <= cs[q] as u32 && cs[q] as u32 <= 0x7e {
            q + 1 - i
        } else {
            0
        }
    } else {
        0
    }
}

/// One left-to-right pass of removal over `cs`.
fn strip_pass(cs: &Vec<char>) -> (r: Vec<char>)
    ensures
        r@ == stripped_once(cs@),
{
    let mut out: Vec<char> = Vec::new();
    let mut i: usize = 0;
    while i < cs.len()
        invariant
            i <= cs@.len(),
            out@ + strip_from(cs@, i as int) == stripped_once(cs@),
        decreases cs@.len() - i,
    {
        let n = sequence_len_at(cs, i);
        if n > 0 {
            i = i + n;
        } else {
            let ghost before = out@;
            out.push(cs[i]);
            assert(before + strip_from(cs@, i as int) =~= out@ + strip_from(cs@, i + 1));
            i = i + 1;
        }
    }
    out
}

/// Removes every terminal control sequence (`ESC [`, parameter bytes,
/// intermediate bytes, one final byte) from `text`, keeping all else, malformed
/// or unfinished sequences included. Passes are repeated until no complete
/// sequence is left. Each call sees only its own text: a sequence split across
/// two calls is not recognised.
pub fn remove_ansi_escape_codes(text: &str) -> (r: String)
    ensures
        r@ == sanitized(text@),
        free_of_sequences(r@),
{
    let mut cur = chars_of(text);
    loop
        invariant
            sanitized(cur@) == sanitized(text@),
        ensures
            sanitized(cur@) == sanitized(text@),
            free_of_sequences(cur@),
        decreases cur@.len(),
    {
        let next = strip_pass(&cur);
        proof {
            lemma_pass_fixes_or_shortens(cur@);
        }
        if next.len() == cur.len() {
            break;
        }
        cur = next;
    }
    assert(cur@.subrange(0, cur@.len() as int) =~= cur@);
    string_of_range(&cur, 0, cur.len())
}

} // verus!
