//! The records a configuration file holds: the parties, and each share
//! with the party and bin it belongs to.

use vstd::arithmetic::div_mod::lemma_add_mod_noop_right;
use vstd::prelude::*;

verus! {

/// A whole configuration: the bins, the parties and the shares received.
#[derive(Debug)]
pub struct Config {
    pub name: String,
    pub num_bins: usize,
    pub name_bins: Vec<String>,
    pub uuid: String,
    pub parties: Vec<Party>,
    pub shares: Vec<Share>,
}

/// One party as stored in a configuration.
#[derive(Debug)]
pub struct Party {
    pub name: String,
    pub email: String,
    pub id: u8,
}

/// One stored share: its value, the party holding it and its bin.
#[derive(Debug, Clone, Copy, PartialEq, Eq, Structural)]
pub struct Share {
    pub share: i64,
    pub party: u8,
    pub bin: usize,
}

/// The values of the shares that belong to bin `bin`, in order.
pub open spec fn bin_values(s: Seq<Share>, bin: usize) -> Seq<i64>
    decreases s.len(),
{
    if s.len() == 0 {
        Seq::empty()
    } else if s.last().bin == bin {
        bin_values(s.drop_last(), bin).push(s.last().share)
    } else {
        bin_values(s.drop_last(), bin)
    }
}

/// Remainder of `x` by `p` with the sign of `x`, as Rust's `%` gives it.
pub open spec fn trunc_rem(x: int, p: int) -> int {
    if x >= 0 {
        x % p
    } else {
        -((-x) % p)
    }
}

/// Left fold of `(acc + v) % p` over `vals`, starting from zero.
pub open spec fn fold_rem(vals: Seq<i64>, p: int) -> int
    decreases vals.len(),
{
    if vals.len() == 0 {
        0
    } else {
        trunc_rem(fold_rem(vals.drop_last(), p) + vals.last(), p)
    }
}

/// Plain sum of `vals`.
pub open spec fn int_sum(vals: Seq<i64>) -> int
    decreases vals.len(),
{
    if vals.len() == 0 {
        0
    } else {
        int_sum(vals.drop_last()) + vals.last()
    }
}

/// On nonnegative values the running remainder is the remainder of the sum.
proof fn lemma_fold_rem_nonneg(vals: Seq<i64>, p: int)
    requires
        p > 0,
        forall|i: int| 0 <= i < vals.len() ==> 0 <= #[trigger] vals[i],
    ensures
        fold_rem(vals, p) == int_sum(vals) % p,
        int_sum(vals) >= 0,
    decreases vals.len(),
{
    if vals.len() > 0 {
        let init = vals.drop_last();
        assert forall|i: int| 0 <= i < init.len() implies 0 <= #[trigger] init[i] by {
            assert(init[i] == vals[i]);
        }
        lemma_fold_rem_nonneg(init, p);
        assert(vals.last() == vals[vals.len() - 1]);
        lemma_add_mod_noop_right(vals.last() as int, int_sum(init), p);
        assert(fold_rem(init, p) >= 0);
    }
}

fn collect_shares(shares: &[Share], bin_num: usize) -> (r: Vec<i64>)
    ensures
        r@ == bin_values(shares@, bin_num),
{
    let mut out: Vec<i64> = Vec::new();
    let mut i: usize = 0;
    while i < shares.len()
        invariant
            0 <= i <= shares@.len(),
            out@ == bin_values(shares@.subrange(0, i as int), bin_num),
        decreases shares@.len() - i,
    {
        let s = shares[i];
        if s.bin == bin_num {
            out.push(s.share);
        }
        proof {
            assert(shares@.subrange(0, i + 1).drop_last() =~= shares@.subrange(0, i as int));
        }
        i = i + 1;
    }
    proof {
        assert(shares@.subrange(0, i as int) =~= shares@);
    }
    out
}

/// Adds up the shares of bin `bin_num`, taking the remainder by `prime`
/// after each addition.
pub fn sum_shares(shares: &[Share], bin_num: usize, prime: i64) -> (r: i64)
    requires
        prime > 0,
    ensures
        r as int == fold_rem(bin_values(shares@, bin_num), prime as int),
        (forall|i: int| 0 <= i < bin_values(shares@, bin_num).len() ==> 0 <= #[trigger] bin_values(shares@, bin_num)[i])
            ==> r as int == int_sum(bin_values(shares@, bin_num)) % (prime as int),
{
    let vals = collect_shares(shares, bin_num);
    let p = prime as i128;
    let mut acc: i128 = 0;
    let mut i: usize = 0;
    while i < vals.len()
        invariant
            0 <= i <= vals@.len(),
            p == prime as i128,
            p > 0,
            -p < acc < p,
            acc as int == fold_rem(vals@.subrange(0, i as int), p as int),
        decreases vals@.len() - i,
    {
        let x: i128 = acc + vals[i] as i128;
        if x >= 0 {
            acc = x % p;
        } else {
            acc = -((-x) % p);
        }
        proof {
            assert(vals@.subrange(0, i + 1).drop_last() =~= vals@.subrange(0, i as int));
        }
        i = i + 1;
    }
    proof {
        assert(vals@.subrange(0, i as int) =~= vals@);
        if forall|i: int| 0 <= i < vals@.len() ==> 0 <= #[trigger] vals@[i] {
            lemma_fold_rem_nonneg(vals@, p as int);
        }
    }
    acc as i64
}

} // verus!
