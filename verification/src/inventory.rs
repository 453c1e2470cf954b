//! Account inventory: the typed account records parsed from the
//! accounts configuration file, and the name-pattern filter applied to
//! them before a run.

use vstd::prelude::*;

use crate::text::contains_substr;
use crate::text::spec_contains;
use vstd::pervasive::unreached;
use vstd::seq_lib::group_seq_properties;

verus! {

/// One account entry of the inventory: a logical program name, a
/// free-form region (resolved later), and the ARN of the IAM role to
/// assume for this account.
pub struct AccountConfig {
    pub namespace: String,
    pub region: String,
    pub role_arn: String,
}

/// The whole parsed inventory: an ordered list of account records.
pub struct AccountsConfig {
    pub account: Vec<AccountConfig>,
}

/// The namespace of `a` contains `pat` as a (case-sensitive) substring.
pub open spec fn spec_namespace_matches(a: AccountConfig, pat: Seq<char>) -> bool {
    spec_contains(a.namespace@, pat)
}

/// The filter predicate for one pattern, as a function value.
pub open spec fn spec_matches_pattern(pat: Seq<char>) -> spec_fn(AccountConfig) -> bool {
    |a: AccountConfig| spec_namespace_matches(a, pat)
}

/// The inventory restricted to the records whose namespace contains the
/// pattern, in their original order.
pub open spec fn spec_filter_inventory(inv: Seq<AccountConfig>, pat: Seq<char>) -> Seq<
    AccountConfig,
> {
    inv.filter(spec_matches_pattern(pat))
}

/// Keeps the records whose namespace contains `pattern` as a substring,
/// in their original order; with no pattern the whole inventory is
/// returned unchanged. Calling this without an inventory is a caller
/// error, excluded by precondition.
pub fn filter_accounts(pattern: Option<&str>, accounts: Option<AccountsConfig>) -> (r: Vec<
    AccountConfig,
>)
    requires
        accounts.is_some(),
    ensures
        pattern is None ==> r@ == accounts.unwrap().account@,
        pattern matches Some(p) ==> r@ == spec_filter_inventory(accounts.unwrap().account@, p@),
{
    let inv = match accounts {
        Some(c) => c.account,
        None => unreached(),
    };
    match pattern {
        None => inv,
        Some(pat) => {
            let ghost orig: Seq<AccountConfig> = inv@;
            let ghost pred = spec_matches_pattern(pat@);
            let mut rest = inv;
            let mut out: Vec<AccountConfig> = Vec::new();
            proof {
                broadcast use Seq::lemma_filter_push;

                reveal(Seq::filter);
                assert(orig.take(0) =~= Seq::<AccountConfig>::empty());
            }
            while rest.len() > 0
                invariant
                    rest@.len() <= orig.len(),
                    rest@ == orig.subrange(orig.len() - rest@.len(), orig.len() as int),
                    out@ == orig.take(orig.len() - rest@.len()).filter(pred),
                    pred == spec_matches_pattern(pat@),
                decreases rest@.len(),
            {
                let ghost done: int = orig.len() - rest@.len();
                let ghost prev: Seq<AccountConfig> = rest@;
                let x = rest.remove(0);
                proof {
                    broadcast use Seq::lemma_filter_push;

                    assert(prev == orig.subrange(done, orig.len() as int));
                    assert(rest@ == prev.remove(0));
                    assert(rest@ =~= orig.subrange(done + 1, orig.len() as int));
                    assert(x == prev[0]);
                    assert(x == orig[done]);
                    assert(orig.take(done + 1) =~= orig.take(done).push(x));
                }
                if contains_substr(x.namespace.as_str(), pat) {
                    out.push(x);
                }
            }
            proof {
                assert(orig.take(orig.len() as int) =~= orig);
            }
            out
        },
    }
}

/// The sequence `xs` can be obtained from `ys` by deleting elements: a
/// subsequence in order.
pub open spec fn spec_is_subseq_of<A>(xs: Seq<A>, ys: Seq<A>) -> bool
    decreases xs.len(), ys.len(),
{
    if xs.len() == 0 {
        true
    } else if ys.len() == 0 {
        false
    } else {
        (xs.last() == ys.last() && spec_is_subseq_of(xs.drop_last(), ys.drop_last()))
            || spec_is_subseq_of(xs, ys.drop_last())
    }
}

/// Filtering an inventory by a pattern yields a possibly empty
/// subsequence of the inventory, in the original order, in which every
/// record's namespace contains the pattern as a substring.
pub proof fn lemma_filter_inventory_law(inv: Seq<AccountConfig>, pat: Seq<char>)
    ensures
        spec_is_subseq_of(spec_filter_inventory(inv, pat), inv),
        spec_filter_inventory(inv, pat).len() <= inv.len(),
        forall|j: int|
            0 <= j < spec_filter_inventory(inv, pat).len() ==> spec_namespace_matches(
                #[trigger] spec_filter_inventory(inv, pat)[j],
                pat,
            ),
    decreases inv.len(),
{
    broadcast use group_seq_properties;

    let pred = spec_matches_pattern(pat);
    reveal(Seq::filter);
    if inv.len() == 0 {
        assert(inv.filter(pred) =~= Seq::<AccountConfig>::empty());
    } else {
        lemma_filter_inventory_law(inv.drop_last(), pat);
        lemma_subseq_extend(inv.filter(pred), inv.drop_last().filter(pred), inv);
    }
}

/// Helper step for the subsequence law: if `part` is a subsequence of
/// `whole.drop_last()`, then both `part` itself and
/// `part.push(whole.last())` are subsequences of `whole`.
proof fn lemma_subseq_extend<A>(xs: Seq<A>, part: Seq<A>, whole: Seq<A>)
    requires
        whole.len() > 0,
        spec_is_subseq_of(part, whole.drop_last()),
        xs == part || xs == part.push(whole.last()),
    ensures
        spec_is_subseq_of(xs, whole),
{
    if xs == part {
        if xs.len() == 0 {
        } else {
            assert(spec_is_subseq_of(xs, whole.drop_last()));
        }
    } else {
        let pushed = part.push(whole.last());
        assert(pushed.last() == whole.last());
        assert(pushed.drop_last() =~= part);
        assert(spec_is_subseq_of(pushed.drop_last(), whole.drop_last()));
    }
}

} // verus!
