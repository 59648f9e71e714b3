//! Greedy wrapping of one run of text over visual rows.
//!
//! Widths are counted in bytes of UTF-8: the first fragment takes what is
//! left of the current row, every later one takes up to a full row. A cut
//! that would fall inside a character moves down to the nearest character
//! boundary, so no fragment ever ends in the middle of a character.

use vstd::prelude::*;
use vstd::string::StringSliceAdditionalSpecFns;
use vstd::utf8::{
    encode_utf8, encode_utf8_valid_utf8, is_char_boundary, is_char_boundary_start_end_of_seq,
    length_of_first_scalar, pop_first_scalar, valid_utf8, valid_utf8_split,
};

verus! {

/// The greatest character boundary of `bytes` that is at most `k`.
pub open spec fn floor_boundary(bytes: Seq<u8>, k: nat) -> nat
    decreases k,
{
    if k == 0 {
        0
    } else if is_char_boundary(bytes, k as int) {
        k
    } else {
        floor_boundary(bytes, (k - 1) as nat)
    }
}

/// How many leading bytes of `bytes` go on a row with room for `budget`
/// bytes: all of them if they fit, else as many as fit up to a character
/// boundary.
pub open spec fn row_cut(bytes: Seq<u8>, budget: nat) -> nat {
    if bytes.len() <= budget {
        bytes.len()
    } else {
        floor_boundary(bytes, budget)
    }
}

/// How many leading bytes of `bytes` go on a fresh row of `cap` bytes. A row
/// too narrow for the next character still takes everything, so that the
/// text ends.
pub open spec fn fresh_row_cut(bytes: Seq<u8>, cap: nat) -> nat {
    if row_cut(bytes, cap) == 0 {
        bytes.len()
    } else {
        row_cut(bytes, cap)
    }
}

/// `bytes` cut into fresh rows of `cap` bytes each.
pub open spec fn wrap_rows(bytes: Seq<u8>, cap: nat) -> Seq<Seq<u8>>
    decreases bytes.len(),
    via wrap_rows_ends
{
    if bytes.len() == 0 {
        Seq::empty()
    } else {
        let cut = fresh_row_cut(bytes, cap);
        seq![bytes.take(cut as int)] + wrap_rows(bytes.skip(cut as int), cap)
    }
}

#[via_fn]
proof fn wrap_rows_ends(bytes: Seq<u8>, cap: nat) {
    lemma_floor_boundary_bound(bytes, cap);
}

/// The fragments of a run: the first takes up to `first` bytes, what is left
/// of the current row; the others are fresh rows of up to `cap` bytes.
pub open spec fn wrap(bytes: Seq<u8>, first: nat, cap: nat) -> Seq<Seq<u8>> {
    let cut = row_cut(bytes, first);
    seq![bytes.take(cut as int)] + wrap_rows(bytes.skip(cut as int), cap)
}

/// The fragments one after another.
pub open spec fn join(frags: Seq<Seq<u8>>) -> Seq<u8>
    decreases frags.len(),
{
    if frags.len() == 0 {
        Seq::empty()
    } else {
        frags[0] + join(frags.drop_first())
    }
}

/// The UTF-8 bytes of each string.
pub open spec fn fragment_bytes(frags: Seq<String>) -> Seq<Seq<u8>> {
    Seq::new(frags.len(), |i: int| encode_utf8(frags[i]@))
}

/// A floor is no greater than what it floors.
pub proof fn lemma_floor_boundary_bound(bytes: Seq<u8>, k: nat)
    ensures
        floor_boundary(bytes, k) <= k,
    decreases k,
{
    if k > 0 && !is_char_boundary(bytes, k as int) {
        lemma_floor_boundary_bound(bytes, (k - 1) as nat);
    }
}

/// In valid UTF-8 the floor is a character boundary.
pub proof fn lemma_floor_boundary_is_boundary(bytes: Seq<u8>, k: nat)
    requires
        valid_utf8(bytes),
    ensures
        is_char_boundary(bytes, floor_boundary(bytes, k) as int),
    decreases k,
{
    if k > 0 && !is_char_boundary(bytes, k as int) {
        lemma_floor_boundary_is_boundary(bytes, (k - 1) as nat);
    }
}

/// No boundary lies between the floor and what it floors.
pub proof fn lemma_floor_boundary_greatest(bytes: Seq<u8>, k: nat, b: nat)
    requires
        b <= k,
        is_char_boundary(bytes, b as int),
    ensures
        b <= floor_boundary(bytes, k),
    decreases k,
{
    if k > b && !is_char_boundary(bytes, k as int) {
        lemma_floor_boundary_greatest(bytes, (k - 1) as nat, b);
    }
}

/// In valid UTF-8 a character boundary lies within three bytes below every
/// position: no character is longer than four bytes.
pub proof fn lemma_boundary_within_three(bytes: Seq<u8>, k: nat) -> (b: nat)
    requires
        valid_utf8(bytes),
        k <= bytes.len(),
    ensures
        b <= k,
        k <= b + 3,
        is_char_boundary(bytes, b as int),
    decreases bytes.len(),
{
    if k <= 3 {
        0
    } else {
        let n = length_of_first_scalar(bytes);
        let tail = pop_first_scalar(bytes);
        assert(1 <= n <= 4);
        assert(n <= bytes.len());
        let inner = lemma_boundary_within_three(tail, (k - n) as nat);
        let b = (inner + n) as nat;
        assert(is_char_boundary(bytes, b as int));
        b
    }
}

/// In valid UTF-8 a row of at least four bytes always takes something.
pub proof fn lemma_fresh_row_progress(bytes: Seq<u8>, cap: nat)
    requires
        valid_utf8(bytes),
        cap >= 4,
        bytes.len() > 0,
    ensures
        0 < row_cut(bytes, cap) <= cap,
        row_cut(bytes, cap) <= bytes.len(),
        fresh_row_cut(bytes, cap) == row_cut(bytes, cap),
{
    lemma_floor_boundary_bound(bytes, cap);
    if bytes.len() > cap {
        let b = lemma_boundary_within_three(bytes, cap);
        lemma_floor_boundary_greatest(bytes, cap, b);
    }
}

/// A cut of valid UTF-8 is a character boundary, and both sides of it are
/// valid UTF-8 again.
pub proof fn lemma_row_cut_splits(bytes: Seq<u8>, budget: nat)
    requires
        valid_utf8(bytes),
    ensures
        row_cut(bytes, budget) <= bytes.len(),
        is_char_boundary(bytes, row_cut(bytes, budget) as int),
        valid_utf8(bytes.take(row_cut(bytes, budget) as int)),
        valid_utf8(bytes.skip(row_cut(bytes, budget) as int)),
{
    let cut = row_cut(bytes, budget);
    lemma_floor_boundary_bound(bytes, budget);
    lemma_floor_boundary_is_boundary(bytes, budget);
    is_char_boundary_start_end_of_seq(bytes);
    valid_utf8_split(bytes, cut as int);
}

/// The fresh rows of a text, put together again, are the text.
pub proof fn lemma_wrap_rows_join(bytes: Seq<u8>, cap: nat)
    ensures
        join(wrap_rows(bytes, cap)) == bytes,
    decreases bytes.len(),
{
    if bytes.len() == 0 {
        assert(join(wrap_rows(bytes, cap)) =~= bytes);
    } else {
        lemma_floor_boundary_bound(bytes, cap);
        let cut = fresh_row_cut(bytes, cap);
        let head = bytes.take(cut as int);
        let rest = wrap_rows(bytes.skip(cut as int), cap);
        lemma_wrap_rows_join(bytes.skip(cut as int), cap);
        assert((seq![head] + rest).drop_first() =~= rest);
        assert(head + bytes.skip(cut as int) =~= bytes);
    }
}

/// The fragments of a run, put together again, are the run byte for byte:
/// wrapping loses nothing, adds nothing and reorders nothing.
pub proof fn lemma_wrap_join(bytes: Seq<u8>, first: nat, cap: nat)
    ensures
        join(wrap(bytes, first, cap)) == bytes,
{
    lemma_floor_boundary_bound(bytes, first);
    let cut = row_cut(bytes, first);
    let head = bytes.take(cut as int);
    let rest = wrap_rows(bytes.skip(cut as int), cap);
    lemma_wrap_rows_join(bytes.skip(cut as int), cap);
    assert((seq![head] + rest).drop_first() =~= rest);
    assert(head + bytes.skip(cut as int) =~= bytes);
}

/// Every fresh row of valid UTF-8 is valid UTF-8 by itself: no row ends
/// inside a character.
pub proof fn lemma_wrap_rows_whole_chars(bytes: Seq<u8>, cap: nat, i: int)
    requires
        valid_utf8(bytes),
        0 <= i < wrap_rows(bytes, cap).len(),
    ensures
        valid_utf8(wrap_rows(bytes, cap)[i]),
    decreases bytes.len(),
{
    if bytes.len() > 0 {
        lemma_row_cut_splits(bytes, cap);
        let cut = fresh_row_cut(bytes, cap);
        assert(bytes.take(bytes.len() as int) =~= bytes);
        if i > 0 {
            if cut == bytes.len() {
                assert(bytes.skip(cut as int).len() == 0);
            }
            lemma_wrap_rows_whole_chars(bytes.skip(cut as int), cap, i - 1);
        }
    }
}

/// Every fragment of a run of valid UTF-8 is valid UTF-8 by itself: no
/// fragment ends inside a character.
pub proof fn lemma_wrap_whole_chars(bytes: Seq<u8>, first: nat, cap: nat, i: int)
    requires
        valid_utf8(bytes),
        0 <= i < wrap(bytes, first, cap).len(),
    ensures
        valid_utf8(wrap(bytes, first, cap)[i]),
{
    lemma_row_cut_splits(bytes, first);
    if i > 0 {
        lemma_wrap_rows_whole_chars(bytes.skip(row_cut(bytes, first) as int), cap, i - 1);
    }
}

/// Every fresh row of valid UTF-8 holds at least one byte and at most
/// `cap`, as long as a row has room for any one character.
pub proof fn lemma_wrap_rows_fit(bytes: Seq<u8>, cap: nat, i: int)
    requires
        valid_utf8(bytes),
        cap >= 4,
        0 <= i < wrap_rows(bytes, cap).len(),
    ensures
        0 < wrap_rows(bytes, cap)[i].len() <= cap,
    decreases bytes.len(),
{
    if bytes.len() > 0 {
        lemma_fresh_row_progress(bytes, cap);
        lemma_row_cut_splits(bytes, cap);
        let cut = fresh_row_cut(bytes, cap);
        if i > 0 {
            lemma_wrap_rows_fit(bytes.skip(cut as int), cap, i - 1);
        }
    }
}

/// The first fragment of a run fits what is left of the current row, and
/// every other fragment fits a fresh row and is not empty.
pub proof fn lemma_wrap_fits(bytes: Seq<u8>, first: nat, cap: nat, i: int)
    requires
        valid_utf8(bytes),
        cap >= 4,
        0 <= i < wrap(bytes, first, cap).len(),
    ensures
        i == 0 ==> wrap(bytes, first, cap)[i].len() <= first,
        i > 0 ==> 0 < wrap(bytes, first, cap)[i].len() <= cap,
{
    lemma_floor_boundary_bound(bytes, first);
    lemma_row_cut_splits(bytes, first);
    if i > 0 {
        lemma_wrap_rows_fit(bytes.skip(row_cut(bytes, first) as int), cap, i - 1);
    }
}

/// Fresh rows of `cap` bytes hold the whole text between them, and none is
/// empty: a text of `n` bytes takes at least `n / cap` rows, rounded up, and
/// at most `n`.
pub proof fn lemma_wrap_rows_count(bytes: Seq<u8>, cap: nat)
    requires
        valid_utf8(bytes),
        cap >= 4,
    ensures
        bytes.len() <= wrap_rows(bytes, cap).len() * cap,
        wrap_rows(bytes, cap).len() <= bytes.len(),
    decreases bytes.len(),
{
    if bytes.len() > 0 {
        lemma_fresh_row_progress(bytes, cap);
        lemma_row_cut_splits(bytes, cap);
        let cut = fresh_row_cut(bytes, cap);
        let rest = wrap_rows(bytes.skip(cut as int), cap);
        lemma_wrap_rows_count(bytes.skip(cut as int), cap);
        assert((rest.len() + 1) * cap == rest.len() * cap + cap) by (nonlinear_arith);
    } else {
        assert(0 * cap == 0);
    }
}

/// A run that does not fit what is left of the current row goes on: its
/// fragments are more than one, and enough to hold all its bytes.
pub proof fn lemma_wrap_count(bytes: Seq<u8>, first: nat, cap: nat)
    requires
        valid_utf8(bytes),
        cap >= 4,
    ensures
        bytes.len() <= first + (wrap(bytes, first, cap).len() - 1) * cap,
        bytes.len() > first ==> wrap(bytes, first, cap).len() > 1,
{
    lemma_floor_boundary_bound(bytes, first);
    lemma_row_cut_splits(bytes, first);
    let cut = row_cut(bytes, first);
    lemma_wrap_rows_count(bytes.skip(cut as int), cap);
}

/// The greatest character boundary of `text` at or below byte `k`.
pub fn floor_char_boundary(text: &str, k: usize) -> (c: usize)
    ensures
        c == floor_boundary(text.spec_bytes(), k as nat),
{
    let mut c = k;
    while c > 0 && !text.is_char_boundary(c)
        invariant
            c <= k,
            floor_boundary(text.spec_bytes(), c as nat) == floor_boundary(
                text.spec_bytes(),
                k as nat,
            ),
        decreases c,
    {
        c = c - 1;
    }
    c
}

/// The length of `text` in bytes.
pub fn byte_len(text: &str) -> (n: usize)
    ensures
        n == text.spec_bytes().len(),
        valid_utf8(text.spec_bytes()),
{
    proof {
        encode_utf8_valid_utf8(text@);
    }
    text.as_bytes().len()
}

/// How many leading bytes of `text` go on a row with room for `budget`
/// bytes.
pub fn cut_for_row(text: &str, budget: usize) -> (cut: usize)
    ensures
        cut == row_cut(text.spec_bytes(), budget as nat),
        cut <= text.spec_bytes().len(),
        is_char_boundary(text.spec_bytes(), cut as int),
{
    proof {
        encode_utf8_valid_utf8(text@);
        lemma_row_cut_splits(text.spec_bytes(), budget as nat);
    }
    let n = byte_len(text);
    if n <= budget {
        n
    } else {
        floor_char_boundary(text, budget)
    }
}

/// Cuts `text` into fragments for successive rows: the first fits the
/// `first` bytes left on the current row, each later one a fresh row of
/// `cap` bytes.
pub fn wrap_run(text: &str, first: usize, cap: usize) -> (frags: Vec<String>)
    ensures
        fragment_bytes(frags@) == wrap(text.spec_bytes(), first as nat, cap as nat),
        join(fragment_bytes(frags@)) == text.spec_bytes(),
{
    proof {
        lemma_wrap_join(text.spec_bytes(), first as nat, cap as nat);
    }
    let mut frags: Vec<String> = Vec::new();
    let cut = cut_for_row(text, first);
    let (head, tail) = text.split_at(cut);
    frags.push(head.to_owned());
    let mut rest: &str = tail;
    proof {
        assert(text.spec_bytes().take(cut as int) =~= head.spec_bytes());
        assert(text.spec_bytes().skip(cut as int) =~= rest.spec_bytes());
        assert(fragment_bytes(frags@) =~= seq![head.spec_bytes()]);
    }
    while byte_len(rest) > 0
        invariant
            fragment_bytes(frags@) + wrap_rows(rest.spec_bytes(), cap as nat) == wrap(
                text.spec_bytes(),
                first as nat,
                cap as nat,
            ),
        decreases rest.spec_bytes().len(),
    {
        let fit = cut_for_row(rest, cap);
        let n = byte_len(rest);
        let ghost before = rest.spec_bytes();
        let ghost done = frags@;
        proof {
            is_char_boundary_start_end_of_seq(before);
            lemma_floor_boundary_bound(before, cap as nat);
        }
        let cut = if fit == 0 {
            n
        } else {
            fit
        };
        let (head, tail) = rest.split_at(cut);
        frags.push(head.to_owned());
        rest = tail;
        proof {
            assert(before.take(cut as int) =~= head.spec_bytes());
            assert(before.skip(cut as int) =~= rest.spec_bytes());
            assert(fragment_bytes(frags@) =~= fragment_bytes(done) + seq![head.spec_bytes()]);
            assert(fragment_bytes(frags@) + wrap_rows(rest.spec_bytes(), cap as nat)
                =~= fragment_bytes(done) + wrap_rows(before, cap as nat));
        }
    }
    proof {
        assert(fragment_bytes(frags@) + wrap_rows(rest.spec_bytes(), cap as nat)
            =~= fragment_bytes(frags@));
    }
    frags
}

} // verus!
