//! Board generation: pick distinct picture tokens from the emoji pool,
//! duplicate them so that every token exists twice, shuffle, and lay the
//! shuffled deck out on the grid row by row.

use vstd::prelude::*;
use vstd::multiset::Multiset;
use vstd::seq_lib::lemma_multiset_commutative;
use rand::seq::SliceRandom;
use crate::types::{GameSize, Picture, spec_dims, spec_total_pairs};

verus! {

// ----------------------------------------------------------------------------
// Outside types that run through the generator.
// ----------------------------------------------------------------------------

#[verifier::external_type_specification]
#[verifier::external_body]
pub struct ExEmoji(emojis::Emoji);

#[verifier::external_type_specification]
#[verifier::external_body]
pub struct ExThreadRng(rand::rngs::ThreadRng);

// ----------------------------------------------------------------------------
// Trusted wrappers around the outside calls.
// ----------------------------------------------------------------------------

/// Relies on `emojis::Group::emojis`: the food-and-drink emojis, collected
/// into a vector. Which emojis those are is the crate's own data; nothing
/// is assumed of them here.
#[verifier::external_body]
fn food_emojis() -> Vec<&'static emojis::Emoji> {
    emojis::Group::FoodAndDrink.emojis().collect()
}

/// Relies on `emojis::Emoji::shortcode`: the primary GitHub shortcode of
/// an emoji, or `None` for an emoji that has no shortcode.
#[verifier::external_body]
fn emoji_shortcode(e: &emojis::Emoji) -> Option<String> {
    match e.shortcode() {
        Some(s) => Some(s.to_string()),
        None => None,
    }
}

/// Relies on `rand::thread_rng`: a handle to the thread-local random
/// number generator.
#[verifier::external_body]
fn fresh_rng() -> rand::rngs::ThreadRng {
    rand::thread_rng()
}

/// Relies on `rand::seq::SliceRandom::shuffle`: an in-place Fisher-Yates
/// shuffle built from swaps, so whatever order comes out, the pictures are
/// only rearranged; none is added, dropped or changed.
#[verifier::external_body]
fn shuffle_pictures(deck: &mut Vec<Picture>, rng: &mut rand::rngs::ThreadRng)
    ensures
        final(deck)@.len() == old(deck)@.len(),
        ids(final(deck)@).to_multiset() == ids(old(deck)@).to_multiset(),
{
    deck.shuffle(rng)
}

// ----------------------------------------------------------------------------
// The mathematical model of a board.
// ----------------------------------------------------------------------------

/// The identifiers of a sequence of pictures.
pub open spec fn ids(s: Seq<Picture>) -> Seq<Seq<char>> {
    s.map_values(|p: Picture| p.id@)
}

/// A grid of rows, as the mathematical sequence of its rows' contents.
pub open spec fn rows_view(b: Seq<Vec<Picture>>) -> Seq<Seq<Picture>> {
    b.map_values(|row: Vec<Picture>| row@)
}

/// All cells of a grid, row by row.
pub open spec fn cells(rows: Seq<Seq<Picture>>) -> Seq<Picture> {
    rows.flatten()
}

/// The grid has exactly the dimensions of the given preset.
pub open spec fn dims_ok(size: GameSize, rows: Seq<Seq<Picture>>) -> bool {
    &&& rows.len() == spec_dims(size).0
    &&& forall|i: int| 0 <= i < rows.len() ==> (#[trigger] rows[i]).len() == spec_dims(size).1
}

/// The multiset in which every member of `s` occurs twice.
pub open spec fn double_multiset(s: Seq<Seq<char>>) -> Multiset<Seq<char>> {
    s.to_multiset().add(s.to_multiset())
}

/// The first occurrence of each value of `s`, in order of appearance.
pub open spec fn first_occurrences(s: Seq<Seq<char>>) -> Seq<Seq<char>>
    decreases s.len(),
{
    if s.len() == 0 {
        Seq::empty()
    } else {
        let init = first_occurrences(s.drop_last());
        if init.contains(s.last()) {
            init
        } else {
            init.push(s.last())
        }
    }
}

/// The pairing invariant of a board: exactly half as many distinct picture
/// identifiers as cells, and every identifier that occurs at all occurs on
/// exactly two cells.
pub open spec fn well_paired(cs: Seq<Picture>) -> bool {
    &&& ids(cs).to_set().len() == cs.len() / 2
    &&& forall|x: Seq<char>|
        #[trigger] ids(cs).to_multiset().count(x) == 0 || ids(cs).to_multiset().count(x) == 2
}

// ----------------------------------------------------------------------------
// Facts about the model.
// ----------------------------------------------------------------------------

/// Keeping first occurrences removes exactly the duplicates: the result has
/// no duplicate, holds the same values, and is no longer than the input.
pub proof fn lemma_first_occurrences(s: Seq<Seq<char>>)
    ensures
        first_occurrences(s).no_duplicates(),
        forall|x: Seq<char>| first_occurrences(s).contains(x) <==> s.contains(x),
        first_occurrences(s).len() <= s.len(),
    decreases s.len(),
{
    if s.len() == 0 {
    } else {
        let init = first_occurrences(s.drop_last());
        lemma_first_occurrences(s.drop_last());
        assert forall|x: Seq<char>| s.contains(x) implies first_occurrences(s).contains(x) by {
            let i = choose|i: int| 0 <= i < s.len() && s[i] == x;
            if i < s.len() - 1 {
                assert(s.drop_last()[i] == x);
                assert(s.drop_last().contains(x));
                assert(init.contains(x));
            } else {
                assert(x == s.last());
            }
            if init.contains(x) {
                let j = choose|j: int| 0 <= j < init.len() && init[j] == x;
                if !init.contains(s.last()) {
                    assert(init.push(s.last())[j] == x);
                }
            } else {
                assert(x == s.last());
                assert(first_occurrences(s) == init.push(x));
                assert(first_occurrences(s)[init.len() as int] == x);
            }
        }
        assert forall|x: Seq<char>| first_occurrences(s).contains(x) implies s.contains(x) by {
            if init.contains(s.last()) {
                assert(s.drop_last().contains(x));
                let i = choose|i: int| 0 <= i < s.drop_last().len() && s.drop_last()[i] == x;
                assert(s[i] == x);
            } else {
                let i = choose|i: int|
                    0 <= i < first_occurrences(s).len() && first_occurrences(s)[i] == x;
                if i < init.len() {
                    assert(init[i] == x);
                    assert(s.drop_last().contains(x));
                    let j = choose|j: int| 0 <= j < s.drop_last().len() && s.drop_last()[j] == x;
                    assert(s[j] == x);
                } else {
                    assert(x == s.last());
                    assert(s[s.len() - 1] == x);
                }
            }
        }
        if !init.contains(s.last()) {
            assert forall|i: int, j: int|
                0 <= i < init.push(s.last()).len() && 0 <= j < init.push(s.last()).len() && i != j
                implies init.push(s.last())[i] != init.push(s.last())[j] by {
                if i < init.len() && j < init.len() {
                    assert(init[i] != init[j]);
                } else if i < init.len() {
                    assert(init.contains(init[i]));
                } else if j < init.len() {
                    assert(init.contains(init[j]));
                }
            }
        }
    }
}

/// Any arrangement of cells whose identifier multiset doubles a
/// duplicate-free token sequence is well paired: the cells show exactly as
/// many distinct identifiers as tokens, each on exactly two cells.
pub proof fn lemma_double_multiset_well_paired(cs: Seq<Picture>, s: Seq<Seq<char>>)
    requires
        s.no_duplicates(),
        ids(cs).to_multiset() == double_multiset(s),
    ensures
        well_paired(cs),
        ids(cs).to_set().len() == s.len(),
        cs.len() == 2 * s.len(),
{
    broadcast use vstd::seq_lib::group_to_multiset_ensures;
    broadcast use vstd::multiset::group_multiset_axioms;
    broadcast use vstd::set::group_set_axioms;

    s.lemma_multiset_has_no_duplicates();
    assert(ids(cs).len() == cs.len());
    assert(ids(cs).to_multiset().len() == 2 * s.to_multiset().len());
    assert(cs.len() == 2 * s.len());
    assert forall|x: Seq<char>|
        ids(cs).to_multiset().count(x) == 0 || #[trigger] ids(cs).to_multiset().count(x) == 2 by {
        if s.contains(x) {
            assert(s.to_multiset().count(x) == 1);
        } else {
            assert(s.to_multiset().count(x) == 0);
        }
    }
    assert(ids(cs).to_set() =~= s.to_set()) by {
        assert forall|x: Seq<char>| ids(cs).to_set().contains(x) <==> s.to_set().contains(x) by {
            assert(ids(cs).contains(x) <==> ids(cs).to_multiset().count(x) > 0);
            assert(s.contains(x) <==> s.to_multiset().count(x) > 0);
            if s.contains(x) {
                assert(s.to_multiset().count(x) == 1);
            } else {
                assert(s.to_multiset().count(x) == 0);
            }
        }
    }
    s.unique_seq_to_set();
}

// ----------------------------------------------------------------------------
// The verified generator.
// ----------------------------------------------------------------------------

/// Whether some picture of `v` carries the identifier `id`.
fn contains_picture(v: &Vec<Picture>, id: &String) -> (r: bool)
    ensures
        r == ids(v@).contains(id@),
{
    let mut i: usize = 0;
    while i < v.len()
        invariant
            i <= v@.len(),
            forall|j: int| 0 <= j < i ==> ids(v@)[j] != id@,
        decreases v@.len() - i,
    {
        if v[i].id == *id {
            proof {
                assert(ids(v@)[i as int] == id@);
            }
            return true;
        }
        i += 1;
    }
    false
}

/// The first occurrence of each picture identifier of `pool`, in order of
/// appearance: the same identifiers, each exactly once.
pub fn distinct_pictures(pool: &Vec<Picture>) -> (r: Vec<Picture>)
    ensures
        ids(r@) == first_occurrences(ids(pool@)),
{
    let mut out: Vec<Picture> = Vec::new();
    let mut i: usize = 0;
    while i < pool.len()
        invariant
            i <= pool@.len(),
            ids(out@) == first_occurrences(ids(pool@).take(i as int)),
        decreases pool@.len() - i,
    {
        let ghost prev = out@;
        if !contains_picture(&out, &pool[i].id) {
            out.push(pool[i].clone());
        }
        proof {
            let taken = ids(pool@).take(i + 1);
            assert(taken.drop_last() =~= ids(pool@).take(i as int));
            assert(taken.last() == pool@[i as int].id@);
            if ids(prev).contains(pool@[i as int].id@) {
                assert(out@ == prev);
            } else {
                assert(out@ == prev.push(pool@[i as int]));
                assert(ids(out@) =~= ids(prev).push(pool@[i as int].id@));
            }
        }
        i += 1;
    }
    proof {
        assert(ids(pool@).take(pool@.len() as int) =~= ids(pool@));
    }
    out
}

/// Lay a board of the given preset out of the pictures of `pool`.
///
/// The duplicates of `pool` are dropped; if enough distinct identifiers
/// remain, the first `total_pairs` of them are doubled, shuffled, and
/// written onto the grid row by row, so the cells carry each chosen
/// identifier exactly twice. With too few distinct identifiers no board
/// can satisfy the pairing invariant, and the result is `None`.
pub fn board_from_pool(size: GameSize, pool: &Vec<Picture>) -> (r: Option<Vec<Vec<Picture>>>)
    ensures
        (r is Some) == (first_occurrences(ids(pool@)).len() >= spec_total_pairs(size)),
        r matches Some(b) ==> {
            &&& dims_ok(size, rows_view(b@))
            &&& ids(cells(rows_view(b@))).to_multiset() == double_multiset(
                first_occurrences(ids(pool@)).take(spec_total_pairs(size)),
            )
        },
{
    let (w, h) = size.into_tuple();
    proof {
        crate::types::lemma_dims(size);
    }
    let total: u32 = (w * h) / 2;
    let distinct = distinct_pictures(pool);
    if distinct.len() < total as usize {
        return None;
    }
    // The first `total` distinct pictures become the tokens of this board.
    let mut deck: Vec<Picture> = Vec::new();
    let mut i: usize = 0;
    while i < total as usize
        invariant
            i <= total,
            deck@ == distinct@.take(i as int),
            distinct@.len() >= total,
        decreases total - i,
    {
        deck.push(distinct[i].clone());
        proof {
            assert(deck@ =~= distinct@.take(i + 1));
        }
        i += 1;
    }
    let ghost half = deck@;
    proof {
        assert(half + half.take(0) =~= half);
    }
    // Each token twice.
    let mut j: usize = 0;
    while j < total as usize
        invariant
            j <= total,
            half.len() == total,
            deck@ == half + half.take(j as int),
        decreases total - j,
    {
        let p = deck[j].clone();
        deck.push(p);
        proof {
            assert(deck@ =~= half + half.take(j + 1));
        }
        j += 1;
    }
    proof {
        assert(half.take(total as int) =~= half);
        assert(ids(half + half) =~= ids(half) + ids(half));
        lemma_multiset_commutative(ids(half), ids(half));
        assert(ids(deck@).to_multiset() == double_multiset(ids(half)));
        assert(ids(half) =~= first_occurrences(ids(pool@)).take(total as int));
    }
    // Uniformly random placement over the whole doubled deck.
    let mut rng = fresh_rng();
    shuffle_pictures(&mut deck, &mut rng);
    proof {
        assert(deck@.len() == w as int * h as int);
    }
    // Row by row onto the grid.
    let mut board: Vec<Vec<Picture>> = Vec::new();
    let mut idx: usize = 0;
    let mut x: u32 = 0;
    while x < w
        invariant
            x <= w,
            board@.len() == x as int,
            forall|i2: int| 0 <= i2 < x ==> (#[trigger] rows_view(board@)[i2]).len() == h,
            idx == x as int * h as int,
            cells(rows_view(board@)) == deck@.take(idx as int),
            deck@.len() == w as int * h as int,
            deck@.len() <= 1024,
        decreases w - x,
    {
        let ghost outer_rows = board@;
        let ghost start = idx as int;
        proof {
            assert(start + h as int <= deck@.len()) by (nonlinear_arith)
                requires
                    x < w,
                    start == x as int * h as int,
                    deck@.len() == w as int * h as int,
            ;
        }
        let mut row: Vec<Picture> = Vec::new();
        proof {
            assert(row@ =~= deck@.subrange(start, start));
        }
        let mut y: u32 = 0;
        while y < h
            invariant
                y <= h,
                x < w,
                0 <= start,
                start + h as int <= deck@.len(),
                row@ == deck@.subrange(start, start + y as int),
                idx == start + y as int,
                start == x as int * h as int,
                deck@.len() == w as int * h as int,
                deck@.len() <= 1024,
            decreases h - y,
        {
            row.push(deck[idx].clone());
            proof {
                assert(row@ =~= deck@.subrange(start, start + y as int + 1));
            }
            idx += 1;
            y += 1;
        }
        board.push(row);
        proof {
            let row_seq = deck@.subrange(start, start + h as int);
            assert(rows_view(board@) =~= rows_view(outer_rows).push(row_seq));
            rows_view(outer_rows).lemma_flatten_push(row_seq);
            assert(deck@.take(start) + row_seq =~= deck@.take(start + h as int));
            assert(cells(rows_view(board@)) =~= deck@.take(start + h as int));
            assert((x as int + 1) * h as int == start + h as int) by (nonlinear_arith)
                requires
                    start == x as int * h as int,
            ;
        }
        x += 1;
    }
    proof {
        assert(deck@.take(w as int * h as int) =~= deck@);
    }
    Some(board)
}

/// Generate a random board for the given preset from the food-and-drink
/// emoji pool, or `None` when the pool holds too few distinct shortcodes
/// for that many pairs.
pub fn generate_board(size: GameSize) -> (r: Option<Vec<Vec<Picture>>>)
    ensures
        r matches Some(b) ==> {
            &&& dims_ok(size, rows_view(b@))
            &&& well_paired(cells(rows_view(b@)))
        },
{
    let pool_emojis = food_emojis();
    let mut pool: Vec<Picture> = Vec::new();
    let mut i: usize = 0;
    while i < pool_emojis.len()
        decreases pool_emojis@.len() - i,
    {
        match emoji_shortcode(pool_emojis[i]) {
            Some(s) => pool.push(Picture { id: s }),
            None => (),
        }
        i += 1;
    }
    let r = board_from_pool(size, &pool);
    proof {
        if r is Some {
            let b = r->Some_0;
            let occ = first_occurrences(ids(pool@));
            let tokens = occ.take(spec_total_pairs(size));
            lemma_first_occurrences(ids(pool@));
            assert(tokens.no_duplicates()) by {
                assert(forall|p: int, q: int|
                    0 <= p < tokens.len() && 0 <= q < tokens.len() && p != q ==> occ[p] != occ[q]);
            }
            lemma_double_multiset_well_paired(cells(rows_view(b@)), tokens);
        }
    }
    r
}

} // verus!
