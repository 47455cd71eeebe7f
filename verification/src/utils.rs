//! Peer sampling and weighted occurrence counting.
//!
//! A sample is drawn from the roster uniformly with replacement; a peer
//! drawn several times keeps a duplicate count, and every reply from it
//! weighs in with that count toward the thresholds. The counting
//! functions return, for each content, exactly the sum of the duplicate
//! counts (one where a peer has none) over the sampled peers whose
//! entry carries that content.

use crate::message::Message;
use crate::peer::Identity;
use crate::table::{keys_unique, tbl_contains, tbl_find, tbl_get, tbl_keys, tbl_put};
use itertools::Itertools;
use rand::Rng;
use vstd::prelude::*;

verus! {

/// The weight a reply from `id` carries: its duplicate count, one
/// where it has none.
pub open spec fn weight_of(dups: Seq<(Identity, usize)>, id: Identity) -> nat {
    if tbl_contains(dups, id) {
        tbl_get(dups, id) as nat
    } else {
        1
    }
}

/// Executable form of `weight_of`.
pub fn lookup_weight(duplicates: &Vec<(Identity, usize)>, id: Identity) -> (w: usize)
    requires
        keys_unique(duplicates@),
    ensures
        w as nat == weight_of(duplicates@, id),
{
    match tbl_find(duplicates, id) {
        Some(i) => duplicates[i].1,
        None => 1,
    }
}

/// An echo slot holding a message of content `c`.
pub open spec fn option_echoes(v: Option<Message>, c: Seq<char>) -> bool {
    v matches Some(m) && m.content@ == c
}

/// The weighted number of sampled peers whose echo slot holds `c`.
pub open spec fn sieve_weight(
    sample: Seq<(Identity, Option<Message>)>,
    dups: Seq<(Identity, usize)>,
    c: Seq<char>,
) -> nat
    decreases sample.len(),
{
    if sample.len() == 0 {
        0
    } else {
        sieve_weight(sample.drop_last(), dups, c) + if option_echoes(sample.last().1, c) {
            weight_of(dups, sample.last().0)
        } else {
            0nat
        }
    }
}

/// The weight of a whole sample, given by its keys: what any one
/// content could at most amount to.
pub open spec fn total_weight(keys: Seq<Identity>, dups: Seq<(Identity, usize)>) -> nat
    decreases keys.len(),
{
    if keys.len() == 0 {
        0
    } else {
        total_weight(keys.drop_last(), dups) + weight_of(dups, keys.last())
    }
}

pub proof fn lemma_sieve_weight_le_total(
    sample: Seq<(Identity, Option<Message>)>,
    dups: Seq<(Identity, usize)>,
    c: Seq<char>,
)
    ensures
        sieve_weight(sample, dups, c) <= total_weight(tbl_keys(sample), dups),
    decreases sample.len(),
{
    if sample.len() > 0 {
        lemma_sieve_weight_le_total(sample.drop_last(), dups, c);
        assert(tbl_keys(sample.drop_last()) =~= tbl_keys(sample).drop_last());
        assert(tbl_keys(sample).last() == sample.last().0);
    }
}

proof fn lemma_sieve_weight_take_succ(
    sample: Seq<(Identity, Option<Message>)>,
    dups: Seq<(Identity, usize)>,
    c: Seq<char>,
    i: int,
)
    requires
        0 <= i < sample.len(),
    ensures
        sieve_weight(sample.take(i + 1), dups, c) == sieve_weight(sample.take(i), dups, c) + if option_echoes(
            sample[i].1,
            c,
        ) {
            weight_of(dups, sample[i].0)
        } else {
            0nat
        },
{
    assert(sample.take(i + 1).drop_last() =~= sample.take(i));
    assert(sample.take(i + 1).last() == sample[i]);
}

proof fn lemma_sieve_weight_prefix_le(
    sample: Seq<(Identity, Option<Message>)>,
    dups: Seq<(Identity, usize)>,
    c: Seq<char>,
    i: int,
)
    requires
        0 <= i <= sample.len(),
    ensures
        sieve_weight(sample.take(i), dups, c) <= sieve_weight(sample, dups, c),
    decreases sample.len() - i,
{
    if i == sample.len() {
        assert(sample.take(i) =~= sample);
    } else {
        lemma_sieve_weight_take_succ(sample, dups, c, i);
        lemma_sieve_weight_prefix_le(sample, dups, c, i + 1);
    }
}

/// The weighted count of sampled peers reporting the already-locked
/// echo: the sum, over the peers whose slot equals `echo`'s content, of
/// their duplicate count.
pub fn check_message_occurrences_sieve(
    messages: &Vec<(Identity, Option<Message>)>,
    duplicates: &Vec<(Identity, usize)>,
    echo: &Message,
) -> (occ: usize)
    requires
        keys_unique(duplicates@),
        sieve_weight(messages@, duplicates@, echo.content@) <= usize::MAX,
    ensures
        occ as nat == sieve_weight(messages@, duplicates@, echo.content@),
{
    let mut occ: usize = 0;
    let n = messages.len();
    for i in 0..n
        invariant
            n == messages@.len(),
            keys_unique(duplicates@),
            sieve_weight(messages@, duplicates@, echo.content@) <= usize::MAX,
            occ as nat == sieve_weight(messages@.take(i as int), duplicates@, echo.content@),
    {
        proof {
            lemma_sieve_weight_take_succ(messages@, duplicates@, echo.content@, i as int);
            lemma_sieve_weight_prefix_le(messages@, duplicates@, echo.content@, i as int + 1);
        }
        match &messages[i].1 {
            Some(m) => {
                if m.content == echo.content {
                    let w = lookup_weight(duplicates, messages[i].0);
                    occ = occ + w;
                }
            },
            None => {},
        }
    }
    proof {
        assert(messages@.take(n as int) =~= messages@);
    }
    occ
}

/// `s` with every later repetition of an element dropped; the first
/// occurrences keep their order.
pub open spec fn dedup_first<A>(s: Seq<A>) -> Seq<A>
    decreases s.len(),
{
    if s.len() == 0 {
        s
    } else if dedup_first(s.drop_last()).contains(s.last()) {
        dedup_first(s.drop_last())
    } else {
        dedup_first(s.drop_last()).push(s.last())
    }
}

pub proof fn lemma_dedup_first_contains<A>(s: Seq<A>, x: A)
    ensures
        dedup_first(s).contains(x) == s.contains(x),
    decreases s.len(),
{
    if s.len() > 0 {
        let pre = s.drop_last();
        let d0 = dedup_first(pre);
        lemma_dedup_first_contains(pre, x);
        if s.contains(x) {
            let i = choose|i: int| 0 <= i < s.len() && s[i] == x;
            if i < s.len() - 1 {
                assert(pre[i] == x);
                assert(pre.contains(x));
                if !d0.contains(s.last()) {
                    let j = choose|j: int| 0 <= j < d0.len() && d0[j] == x;
                    assert(dedup_first(s)[j] == x);
                }
            } else {
                assert(x == s.last());
                if !d0.contains(s.last()) {
                    assert(dedup_first(s).last() == x);
                }
            }
        }
        if dedup_first(s).contains(x) {
            let i = choose|i: int| 0 <= i < dedup_first(s).len() && dedup_first(s)[i] == x;
            if i < d0.len() {
                assert(d0[i] == x);
                assert(d0.contains(x));
                let j = choose|j: int| 0 <= j < pre.len() && pre[j] == x;
                assert(s[j] == x);
            } else {
                assert(x == s.last());
                assert(s[s.len() - 1] == x);
            }
        }
    }
}

pub proof fn lemma_dedup_first_unique<A>(s: Seq<A>)
    ensures
        forall|i: int, j: int|
            0 <= i < j < dedup_first(s).len() ==> dedup_first(s)[i] != dedup_first(s)[j],
    decreases s.len(),
{
    if s.len() > 0 {
        lemma_dedup_first_unique(s.drop_last());
        let d0 = dedup_first(s.drop_last());
        if !d0.contains(s.last()) {
            assert forall|i: int, j: int|
                0 <= i < j < dedup_first(s).len() implies dedup_first(s)[i] != dedup_first(
                s,
            )[j] by {
                if j == d0.len() {
                    assert(dedup_first(s)[j] == s.last());
                    assert(dedup_first(s)[i] == d0[i]);
                    assert(!d0.contains(s.last()));
                }
            }
        }
    }
}

/// Relies on itertools' `unique` adaptor: it yields the elements that
/// have not appeared before, keeping first occurrences in order.
#[verifier::external_body]
fn unique_strings(values: &Vec<String>) -> (r: Vec<String>)
    ensures
        r@.map_values(|s: String| s@) == dedup_first(values@.map_values(|s: String| s@)),
{
    values.iter().cloned().unique().collect()
}

/// Relies on itertools' `unique` adaptor: it yields the elements that
/// have not appeared before, keeping first occurrences in order.
#[verifier::external_body]
pub(crate) fn unique_identities(values: &Vec<Identity>) -> (r: Vec<Identity>)
    ensures
        r@ == dedup_first(values@),
{
    values.iter().cloned().unique().collect()
}

/// The contents of one sampled peer's replies.
pub open spec fn entry_contents(ms: Seq<Message>) -> Seq<Seq<char>> {
    ms.map_values(|m: Message| m.content@)
}

/// One of the replies in `ms` carries content `c`.
pub open spec fn entry_has_content(ms: Seq<Message>, c: Seq<char>) -> bool {
    exists|l: int| 0 <= l < ms.len() && ms[l].content@ == c
}

/// Every reply content in the sample, one after the other.
pub open spec fn all_contents(sample: Seq<(Identity, Vec<Message>)>) -> Seq<Seq<char>>
    decreases sample.len(),
{
    if sample.len() == 0 {
        Seq::empty()
    } else {
        all_contents(sample.drop_last()) + entry_contents(sample.last().1@)
    }
}

/// Some sampled peer's replies carry content `c`.
pub open spec fn sample_has_content(sample: Seq<(Identity, Vec<Message>)>, c: Seq<char>) -> bool {
    exists|k: int| 0 <= k < sample.len() && entry_has_content(sample[k].1@, c)
}

proof fn lemma_all_contents_take_succ(sample: Seq<(Identity, Vec<Message>)>, i: int)
    requires
        0 <= i < sample.len(),
    ensures
        all_contents(sample.take(i + 1)) == all_contents(sample.take(i)) + entry_contents(
            sample[i].1@,
        ),
{
    assert(sample.take(i + 1).drop_last() =~= sample.take(i));
    assert(sample.take(i + 1).last() == sample[i]);
}

pub proof fn lemma_all_contents_iff(sample: Seq<(Identity, Vec<Message>)>, c: Seq<char>)
    ensures
        all_contents(sample).contains(c) == sample_has_content(sample, c),
    decreases sample.len(),
{
    if sample.len() > 0 {
        let pre = sample.drop_last();
        lemma_all_contents_iff(pre, c);
        let tailc = entry_contents(sample.last().1@);
        if all_contents(sample).contains(c) {
            let i = choose|i: int|
                0 <= i < all_contents(sample).len() && all_contents(sample)[i] == c;
            if i < all_contents(pre).len() {
                assert(all_contents(pre)[i] == c);
            } else {
                let l = i - all_contents(pre).len();
                assert(tailc[l] == c);
                assert(sample.last().1@[l].content@ == c);
                assert(entry_has_content(sample[sample.len() - 1].1@, c));
            }
        }
        if sample_has_content(sample, c) {
            let k = choose|k: int| 0 <= k < sample.len() && entry_has_content(sample[k].1@, c);
            if k < sample.len() - 1 {
                assert(entry_has_content(pre[k].1@, c));
                assert(all_contents(pre).contains(c));
                let i = choose|i: int|
                    0 <= i < all_contents(pre).len() && all_contents(pre)[i] == c;
                assert(all_contents(sample)[i] == c);
            } else {
                let l = choose|l: int|
                    0 <= l < sample.last().1@.len() && sample.last().1@[l].content@ == c;
                assert(tailc[l] == c);
                assert(all_contents(sample)[all_contents(pre).len() + l] == c);
            }
        }
    }
}

/// The weighted number of sampled peers whose replies carry `c`.
pub open spec fn contagion_weight(
    sample: Seq<(Identity, Vec<Message>)>,
    dups: Seq<(Identity, usize)>,
    c: Seq<char>,
) -> nat
    decreases sample.len(),
{
    if sample.len() == 0 {
        0
    } else {
        contagion_weight(sample.drop_last(), dups, c) + if entry_has_content(
            sample.last().1@,
            c,
        ) {
            weight_of(dups, sample.last().0)
        } else {
            0nat
        }
    }
}

pub proof fn lemma_contagion_weight_le_total(
    sample: Seq<(Identity, Vec<Message>)>,
    dups: Seq<(Identity, usize)>,
    c: Seq<char>,
)
    ensures
        contagion_weight(sample, dups, c) <= total_weight(tbl_keys(sample), dups),
    decreases sample.len(),
{
    if sample.len() > 0 {
        lemma_contagion_weight_le_total(sample.drop_last(), dups, c);
        assert(tbl_keys(sample.drop_last()) =~= tbl_keys(sample).drop_last());
        assert(tbl_keys(sample).last() == sample.last().0);
    }
}

proof fn lemma_contagion_weight_take_succ(
    sample: Seq<(Identity, Vec<Message>)>,
    dups: Seq<(Identity, usize)>,
    c: Seq<char>,
    i: int,
)
    requires
        0 <= i < sample.len(),
    ensures
        contagion_weight(sample.take(i + 1), dups, c) == contagion_weight(sample.take(i), dups, c)
            + if entry_has_content(sample[i].1@, c) {
            weight_of(dups, sample[i].0)
        } else {
            0nat
        },
{
    assert(sample.take(i + 1).drop_last() =~= sample.take(i));
    assert(sample.take(i + 1).last() == sample[i]);
}

proof fn lemma_contagion_weight_prefix_le(
    sample: Seq<(Identity, Vec<Message>)>,
    dups: Seq<(Identity, usize)>,
    c: Seq<char>,
    i: int,
)
    requires
        0 <= i <= sample.len(),
    ensures
        contagion_weight(sample.take(i), dups, c) <= contagion_weight(sample, dups, c),
    decreases sample.len() - i,
{
    if i == sample.len() {
        assert(sample.take(i) =~= sample);
    } else {
        lemma_contagion_weight_take_succ(sample, dups, c, i);
        lemma_contagion_weight_prefix_le(sample, dups, c, i + 1);
    }
}

/// One sampled peer's replies, tested for content `c`.
pub(crate) fn entry_contains_content(ms: &Vec<Message>, c: &String) -> (r: bool)
    ensures
        r == entry_has_content(ms@, c@),
{
    let n = ms.len();
    for l in 0..n
        invariant
            n == ms@.len(),
            forall|j: int| 0 <= j < l ==> ms@[j].content@ != c@,
    {
        if ms[l].content == *c {
            return true;
        }
    }
    false
}

/// The weighted count of one content over a sample.
fn count_content_occurrences(
    messages: &Vec<(Identity, Vec<Message>)>,
    duplicates: &Vec<(Identity, usize)>,
    content: &String,
) -> (n: usize)
    requires
        keys_unique(duplicates@),
        contagion_weight(messages@, duplicates@, content@) <= usize::MAX,
    ensures
        n as nat == contagion_weight(messages@, duplicates@, content@),
{
    let mut occ: usize = 0;
    let n = messages.len();
    for i in 0..n
        invariant
            n == messages@.len(),
            keys_unique(duplicates@),
            contagion_weight(messages@, duplicates@, content@) <= usize::MAX,
            occ as nat == contagion_weight(messages@.take(i as int), duplicates@, content@),
    {
        proof {
            lemma_contagion_weight_take_succ(messages@, duplicates@, content@, i as int);
            lemma_contagion_weight_prefix_le(messages@, duplicates@, content@, i as int + 1);
        }
        if entry_contains_content(&messages[i].1, content) {
            let w = lookup_weight(duplicates, messages[i].0);
            occ = occ + w;
        }
    }
    proof {
        assert(messages@.take(n as int) =~= messages@);
    }
    occ
}

/// Every reply content of the sample, in order of first appearance.
fn collect_contents(messages: &Vec<(Identity, Vec<Message>)>) -> (cs: Vec<String>)
    ensures
        cs@.map_values(|s: String| s@) == all_contents(messages@),
{
    let mut cs: Vec<String> = Vec::new();
    let n = messages.len();
    for i in 0..n
        invariant
            n == messages@.len(),
            cs@.map_values(|s: String| s@) =~= all_contents(messages@.take(i as int)),
    {
        let entry_len = messages[i].1.len();
        for l in 0..entry_len
            invariant
                n == messages@.len(),
                0 <= i < n,
                entry_len == messages@[i as int].1@.len(),
                cs@.map_values(|s: String| s@) =~= all_contents(messages@.take(i as int))
                    + entry_contents(messages@[i as int].1@.take(l as int)),
        {
            let ghost cs0 = cs@;
            cs.push(messages[i].1[l].content.clone());
            proof {
                assert(cs@ == cs0.push(cs@.last()));
                assert(cs@.last()@ == messages@[i as int].1@[l as int].content@);
                assert(cs@.map_values(|s: String| s@) =~= cs0.map_values(|s: String| s@).push(
                    messages@[i as int].1@[l as int].content@,
                ));
                assert(entry_contents(messages@[i as int].1@.take(l as int + 1)) =~= entry_contents(
                    messages@[i as int].1@.take(l as int),
                ).push(messages@[i as int].1@[l as int].content@));
                assert(cs@.map_values(|s: String| s@) =~= all_contents(
                    messages@.take(i as int),
                ) + entry_contents(messages@[i as int].1@.take(l as int + 1)));
            }
        }
        proof {
            lemma_all_contents_take_succ(messages@, i as int);
            assert(messages@[i as int].1@.take(entry_len as int) =~= messages@[i as int].1@);
        }
    }
    proof {
        assert(messages@.take(n as int) =~= messages@);
    }
    cs
}

/// The weighted per-content ready counts: for each content that occurs
/// in the sample, in order of first appearance, the sum of the
/// duplicate counts of the peers whose replies carry it.
pub fn check_message_occurrences_contagion(
    messages: &Vec<(Identity, Vec<Message>)>,
    duplicates: &Vec<(Identity, usize)>,
) -> (occ: Vec<(String, usize)>)
    requires
        keys_unique(duplicates@),
        total_weight(tbl_keys(messages@), duplicates@) <= usize::MAX,
    ensures
        occ@.map_values(|p: (String, usize)| p.0@) == dedup_first(all_contents(messages@)),
        forall|k: int|
            0 <= k < occ@.len() ==> #[trigger] occ@[k].1 as nat == contagion_weight(
                messages@,
                duplicates@,
                occ@[k].0@,
            ),
        forall|i: int, j: int| 0 <= i < j < occ@.len() ==> occ@[i].0@ != occ@[j].0@,
{
    let all = collect_contents(messages);
    let distinct = unique_strings(&all);
    let mut occ: Vec<(String, usize)> = Vec::new();
    let n = distinct.len();
    proof {
        lemma_dedup_first_unique(all@.map_values(|s: String| s@));
    }
    for k in 0..n
        invariant
            n == distinct@.len(),
            keys_unique(duplicates@),
            total_weight(tbl_keys(messages@), duplicates@) <= usize::MAX,
            distinct@.map_values(|s: String| s@) == dedup_first(all_contents(messages@)),
            occ@.len() == k,
            forall|j: int| 0 <= j < k ==> #[trigger] occ@[j].0@ == distinct@[j]@,
            forall|j: int|
                0 <= j < k ==> #[trigger] occ@[j].1 as nat == contagion_weight(
                    messages@,
                    duplicates@,
                    occ@[j].0@,
                ),
    {
        proof {
            lemma_contagion_weight_le_total(messages@, duplicates@, distinct@[k as int]@);
        }
        let cnt = count_content_occurrences(messages, duplicates, &distinct[k]);
        occ.push((distinct[k].clone(), cnt));
    }
    proof {
        assert(occ@.map_values(|p: (String, usize)| p.0@) =~= dedup_first(
            all_contents(messages@),
        ));
        assert forall|i: int, j: int| 0 <= i < j < occ@.len() implies occ@[i].0@ != occ@[j].0@ by {
            let d = dedup_first(all@.map_values(|s: String| s@));
            assert(occ@[i].0@ == d[i]);
            assert(occ@[j].0@ == d[j]);
        }
    }
    occ
}

/// How often `id` occurs among the draws.
pub open spec fn multiplicity(draws: Seq<Identity>, id: Identity) -> nat
    decreases draws.len(),
{
    if draws.len() == 0 {
        0
    } else {
        multiplicity(draws.drop_last(), id) + if draws.last() == id {
            1nat
        } else {
            0
        }
    }
}

pub proof fn lemma_multiplicity_le_len(draws: Seq<Identity>, id: Identity)
    ensures
        multiplicity(draws, id) <= draws.len(),
    decreases draws.len(),
{
    if draws.len() > 0 {
        lemma_multiplicity_le_len(draws.drop_last(), id);
    }
}

pub proof fn lemma_multiplicity_zero(draws: Seq<Identity>, id: Identity)
    requires
        !draws.contains(id),
    ensures
        multiplicity(draws, id) == 0,
    decreases draws.len(),
{
    if draws.len() > 0 {
        assert forall|i: int| 0 <= i < draws.drop_last().len() implies draws.drop_last()[i]
            != id by {
            assert(draws[i] == draws.drop_last()[i]);
        }
        lemma_multiplicity_zero(draws.drop_last(), id);
        assert(draws[draws.len() - 1] != id);
    }
}

proof fn lemma_multiplicity_take_succ(draws: Seq<Identity>, id: Identity, t: int)
    requires
        0 <= t < draws.len(),
    ensures
        multiplicity(draws.take(t + 1), id) == multiplicity(draws.take(t), id) + if draws[t]
            == id {
            1nat
        } else {
            0
        },
{
    assert(draws.take(t + 1).drop_last() =~= draws.take(t));
    assert(draws.take(t + 1).last() == draws[t]);
}

/// A table's key sequence carries `id` exactly when some entry binds it.
pub proof fn lemma_tbl_keys_contains<V>(s: Seq<(Identity, V)>, id: Identity)
    ensures
        tbl_keys(s).contains(id) == tbl_contains(s, id),
{
    if tbl_contains(s, id) {
        let i = choose|i: int| 0 <= i < s.len() && s[i].0 == id;
        assert(tbl_keys(s)[i] == id);
    }
    if tbl_keys(s).contains(id) {
        let i = choose|i: int| 0 <= i < tbl_keys(s).len() && tbl_keys(s)[i] == id;
        assert(s[i].0 == id);
    }
}

proof fn lemma_total_weight_same(keys: Seq<Identity>, d0: Seq<(Identity, usize)>, d1: Seq<(Identity, usize)>)
    requires
        forall|k: int| 0 <= k < keys.len() ==> weight_of(d1, #[trigger] keys[k]) == weight_of(
            d0,
            keys[k],
        ),
    ensures
        total_weight(keys, d1) == total_weight(keys, d0),
    decreases keys.len(),
{
    if keys.len() > 0 {
        assert forall|k: int| 0 <= k < keys.drop_last().len() implies weight_of(
            d1,
            #[trigger] keys.drop_last()[k],
        ) == weight_of(d0, keys.drop_last()[k]) by {
            assert(keys.drop_last()[k] == keys[k]);
        }
        lemma_total_weight_same(keys.drop_last(), d0, d1);
    }
}

proof fn lemma_total_weight_bump(
    keys: Seq<Identity>,
    d0: Seq<(Identity, usize)>,
    d1: Seq<(Identity, usize)>,
    id: Identity,
)
    requires
        forall|i: int, j: int| 0 <= i < j < keys.len() ==> keys[i] != keys[j],
        weight_of(d1, id) == weight_of(d0, id) + 1,
        forall|other: Identity| other != id ==> weight_of(d1, other) == weight_of(d0, other),
    ensures
        total_weight(keys, d1) <= total_weight(keys, d0) + 1,
    decreases keys.len(),
{
    if keys.len() > 0 {
        let pre = keys.drop_last();
        assert(forall|i: int, j: int| 0 <= i < j < pre.len() ==> pre[i] != pre[j]);
        if keys.last() == id {
            assert forall|k: int| 0 <= k < pre.len() implies weight_of(d1, #[trigger] pre[k])
                == weight_of(d0, pre[k]) by {
                assert(keys[k] == pre[k]);
                assert(keys[k] != keys[keys.len() - 1]);
            }
            lemma_total_weight_same(pre, d0, d1);
        } else {
            lemma_total_weight_bump(pre, d0, d1, id);
        }
    }
}

proof fn lemma_total_weight_push(keys: Seq<Identity>, dups: Seq<(Identity, usize)>, id: Identity)
    ensures
        total_weight(keys.push(id), dups) == total_weight(keys, dups) + weight_of(dups, id),
{
    assert(keys.push(id).drop_last() =~= keys);
    assert(keys.push(id).last() == id);
}

proof fn lemma_total_weight_take_succ(keys: Seq<Identity>, dups: Seq<(Identity, usize)>, i: int)
    requires
        0 <= i < keys.len(),
    ensures
        total_weight(keys.take(i + 1), dups) == total_weight(keys.take(i), dups) + weight_of(
            dups,
            keys[i],
        ),
{
    assert(keys.take(i + 1).drop_last() =~= keys.take(i));
    assert(keys.take(i + 1).last() == keys[i]);
}

proof fn lemma_total_weight_prefix_le(keys: Seq<Identity>, dups: Seq<(Identity, usize)>, i: int)
    requires
        0 <= i <= keys.len(),
    ensures
        total_weight(keys.take(i), dups) <= total_weight(keys, dups),
    decreases keys.len() - i,
{
    if i == keys.len() {
        assert(keys.take(i) =~= keys);
    } else {
        lemma_total_weight_take_succ(keys, dups, i);
        lemma_total_weight_prefix_le(keys, dups, i + 1);
    }
}

/// Whether a table's keys are pairwise distinct.
pub fn keys_distinct<V>(entries: &Vec<(Identity, V)>) -> (r: bool)
    ensures
        r == keys_unique(entries@),
{
    let n = entries.len();
    for i in 0..n
        invariant
            n == entries@.len(),
            forall|p: int, q: int| 0 <= p < q < i ==> entries@[p].0 != entries@[q].0,
    {
        for j in 0..i
            invariant
                n == entries@.len(),
                i < n,
                forall|p: int, q: int| 0 <= p < q < i ==> entries@[p].0 != entries@[q].0,
                forall|p: int| 0 <= p < j ==> entries@[p].0 != entries@[i as int].0,
        {
            if entries[j].0 == entries[i].0 {
                return false;
            }
        }
    }
    true
}

/// Whether the whole sample's weight fits the machine word, so that no
/// threshold count can overflow.
pub fn total_weight_fits<V>(
    sample: &Vec<(Identity, V)>,
    duplicates: &Vec<(Identity, usize)>,
) -> (r: bool)
    requires
        keys_unique(duplicates@),
    ensures
        r == (total_weight(tbl_keys(sample@), duplicates@) <= usize::MAX),
{
    let mut acc: u128 = 0;
    let n = sample.len();
    for i in 0..n
        invariant
            n == sample@.len(),
            keys_unique(duplicates@),
            acc <= usize::MAX as u128,
            acc as nat == total_weight(tbl_keys(sample@).take(i as int), duplicates@),
    {
        proof {
            lemma_total_weight_take_succ(tbl_keys(sample@), duplicates@, i as int);
            assert(tbl_keys(sample@)[i as int] == sample@[i as int].0);
        }
        let w = lookup_weight(duplicates, sample[i].0);
        acc = acc + (w as u128);
        if acc > (usize::MAX as u128) {
            proof {
                lemma_total_weight_prefix_le(tbl_keys(sample@), duplicates@, i as int + 1);
            }
            return false;
        }
    }
    proof {
        assert(tbl_keys(sample@).take(n as int) =~= tbl_keys(sample@));
    }
    true
}

/// Relies on rand's `thread_rng` and `gen_range`: a draw within the
/// range, which panics only when the range is empty.
#[verifier::external_body]
pub(crate) fn random_index(bound: usize) -> (n: usize)
    requires
        bound >= 1,
    ensures
        n < bound,
{
    let mut rng = rand::thread_rng();
    rng.gen_range(0..bound)
}

/// A sieve sample as drawn: one empty slot per distinct drawn peer, in
/// draw order, with each peer's draw multiplicity beside it.
pub open spec fn sieve_sample_of(
    draws: Seq<Identity>,
    replies: Seq<(Identity, Option<Message>)>,
    dups: Seq<(Identity, usize)>,
) -> bool {
    &&& keys_unique(replies)
    &&& keys_unique(dups)
    &&& tbl_keys(replies) == dedup_first(draws)
    &&& tbl_keys(dups) == dedup_first(draws)
    &&& forall|id: Identity|
        tbl_contains(replies, id) ==> #[trigger] tbl_get(replies, id) is None
    &&& forall|id: Identity|
        tbl_contains(dups, id) ==> #[trigger] tbl_get(dups, id) as nat == multiplicity(draws, id)
    &&& total_weight(tbl_keys(replies), dups) <= draws.len()
}

/// Build the sieve sample for a given draw sequence.
pub fn sample_sieve_from_draws(draws: &Vec<Identity>) -> (r: (
    Vec<(Identity, Option<Message>)>,
    Vec<(Identity, usize)>,
))
    ensures
        sieve_sample_of(draws@, r.0@, r.1@),
{
    let mut replies: Vec<(Identity, Option<Message>)> = Vec::new();
    let mut dups: Vec<(Identity, usize)> = Vec::new();
    let n = draws.len();
    for t in 0..n
        invariant
            n == draws@.len(),
            keys_unique(replies@),
            keys_unique(dups@),
            tbl_keys(replies@) == dedup_first(draws@.take(t as int)),
            tbl_keys(dups@) == dedup_first(draws@.take(t as int)),
            forall|id: Identity|
                tbl_contains(replies@, id) ==> #[trigger] tbl_get(replies@, id) is None,
            forall|id: Identity|
                tbl_contains(dups@, id) ==> #[trigger] tbl_get(dups@, id) as nat == multiplicity(
                    draws@.take(t as int),
                    id,
                ),
            total_weight(tbl_keys(replies@), dups@) <= t,
    {
        let id = draws[t];
        let ghost taken = draws@.take(t as int);
        let ghost keys0 = tbl_keys(replies@);
        let ghost d0 = dups@;
        proof {
            assert(draws@.take(t as int + 1).drop_last() =~= taken);
            assert(draws@.take(t as int + 1).last() == draws@[t as int]);
            lemma_multiplicity_take_succ(draws@, id, t as int);
            lemma_dedup_first_contains(taken, id);
            lemma_tbl_keys_contains(dups@, id);
            lemma_tbl_keys_contains(replies@, id);
        }
        let found = tbl_find(&dups, id);
        match found {
            Some(i) => {
                let v = dups[i].1;
                proof {
                    assert(tbl_get(dups@, id) == v);
                    lemma_multiplicity_le_len(taken, id);
                }
                tbl_put(&mut dups, id, v + 1);
                proof {
                    assert forall|other: Identity| other != id implies weight_of(dups@, other)
                        == weight_of(d0, other) by {}
                    lemma_total_weight_bump(keys0, d0, dups@, id);
                }
            },
            None => {
                proof {
                    assert(!taken.contains(id));
                    lemma_multiplicity_zero(taken, id);
                }
                tbl_put(&mut dups, id, 1);
                tbl_put(&mut replies, id, None);
                proof {
                    assert forall|k: int| 0 <= k < keys0.len() implies weight_of(
                        dups@,
                        #[trigger] keys0[k],
                    ) == weight_of(d0, keys0[k]) by {
                        lemma_tbl_keys_contains(replies@, keys0[k]);
                        assert(keys0[k] != id);
                    }
                    lemma_total_weight_same(keys0, d0, dups@);
                    lemma_total_weight_push(keys0, dups@, id);
                    assert(weight_of(dups@, id) == 1);
                }
            },
        }
    }
    proof {
        assert(draws@.take(n as int) =~= draws@);
    }
    (replies, dups)
}

/// Draw `size` peers uniformly with replacement and build the sieve
/// sample: one empty echo slot per distinct drawn peer, with its draw
/// multiplicity.
pub fn sample_sieve(size: usize, system: &Vec<Identity>) -> (r: (
    Vec<(Identity, Option<Message>)>,
    Vec<(Identity, usize)>,
))
    requires
        system@.len() >= 1,
    ensures
        exists|draws: Seq<Identity>|
            {
                &&& draws.len() == size
                &&& forall|t: int| 0 <= t < draws.len() ==> system@.contains(#[trigger] draws[t])
                &&& sieve_sample_of(draws, r.0@, r.1@)
            },
{
    let mut draws: Vec<Identity> = Vec::new();
    for t in 0..size
        invariant
            system@.len() >= 1,
            draws@.len() == t,
            forall|j: int| 0 <= j < t ==> system@.contains(#[trigger] draws@[j]),
    {
        let i = random_index(system.len());
        draws.push(system[i]);
    }
    let r = sample_sieve_from_draws(&draws);
    proof {
        assert(draws@.len() == size && forall|t: int|
            0 <= t < draws@.len() ==> system@.contains(#[trigger] draws@[t]));
    }
    r
}

/// A contagion sample as drawn: one empty reply multiset per distinct
/// drawn peer, in draw order, with each peer's draw multiplicity.
pub open spec fn contagion_sample_of(
    draws: Seq<Identity>,
    replies: Seq<(Identity, Vec<Message>)>,
    dups: Seq<(Identity, usize)>,
) -> bool {
    &&& keys_unique(replies)
    &&& keys_unique(dups)
    &&& tbl_keys(replies) == dedup_first(draws)
    &&& tbl_keys(dups) == dedup_first(draws)
    &&& forall|id: Identity|
        tbl_contains(replies, id) ==> (#[trigger] tbl_get(replies, id))@ == Seq::<Message>::empty()
    &&& forall|id: Identity|
        tbl_contains(dups, id) ==> #[trigger] tbl_get(dups, id) as nat == multiplicity(draws, id)
    &&& total_weight(tbl_keys(replies), dups) <= draws.len()
}

/// Build the contagion sample for a given draw sequence.
pub fn sample_contagion_from_draws(draws: &Vec<Identity>) -> (r: (
    Vec<(Identity, Vec<Message>)>,
    Vec<(Identity, usize)>,
))
    ensures
        contagion_sample_of(draws@, r.0@, r.1@),
{
    let mut replies: Vec<(Identity, Vec<Message>)> = Vec::new();
    let mut dups: Vec<(Identity, usize)> = Vec::new();
    let n = draws.len();
    for t in 0..n
        invariant
            n == draws@.len(),
            keys_unique(replies@),
            keys_unique(dups@),
            tbl_keys(replies@) == dedup_first(draws@.take(t as int)),
            tbl_keys(dups@) == dedup_first(draws@.take(t as int)),
            forall|id: Identity|
                tbl_contains(replies@, id) ==> (#[trigger] tbl_get(replies@, id))@
                    == Seq::<Message>::empty(),
            forall|id: Identity|
                tbl_contains(dups@, id) ==> #[trigger] tbl_get(dups@, id) as nat == multiplicity(
                    draws@.take(t as int),
                    id,
                ),
            total_weight(tbl_keys(replies@), dups@) <= t,
    {
        let id = draws[t];
        let ghost taken = draws@.take(t as int);
        let ghost keys0 = tbl_keys(replies@);
        let ghost d0 = dups@;
        proof {
            assert(draws@.take(t as int + 1).drop_last() =~= taken);
            assert(draws@.take(t as int + 1).last() == draws@[t as int]);
            lemma_multiplicity_take_succ(draws@, id, t as int);
            lemma_dedup_first_contains(taken, id);
            lemma_tbl_keys_contains(dups@, id);
            lemma_tbl_keys_contains(replies@, id);
        }
        let found = tbl_find(&dups, id);
        match found {
            Some(i) => {
                let v = dups[i].1;
                proof {
                    assert(tbl_get(dups@, id) == v);
                    lemma_multiplicity_le_len(taken, id);
                }
                tbl_put(&mut dups, id, v + 1);
                proof {
                    assert forall|other: Identity| other != id implies weight_of(dups@, other)
                        == weight_of(d0, other) by {}
                    lemma_total_weight_bump(keys0, d0, dups@, id);
                }
            },
            None => {
                proof {
                    assert(!taken.contains(id));
                    lemma_multiplicity_zero(taken, id);
                }
                tbl_put(&mut dups, id, 1);
                let empty: Vec<Message> = Vec::new();
                tbl_put(&mut replies, id, empty);
                proof {
                    assert forall|k: int| 0 <= k < keys0.len() implies weight_of(
                        dups@,
                        #[trigger] keys0[k],
                    ) == weight_of(d0, keys0[k]) by {
                        lemma_tbl_keys_contains(replies@, keys0[k]);
                        assert(keys0[k] != id);
                    }
                    lemma_total_weight_same(keys0, d0, dups@);
                    lemma_total_weight_push(keys0, dups@, id);
                    assert(weight_of(dups@, id) == 1);
                }
            },
        }
    }
    proof {
        assert(draws@.take(n as int) =~= draws@);
    }
    (replies, dups)
}

/// Draw `size` peers uniformly with replacement and build the contagion
/// sample: one empty reply multiset per distinct drawn peer, with its
/// draw multiplicity.
pub fn sample_contagion(size: usize, system: &Vec<Identity>) -> (r: (
    Vec<(Identity, Vec<Message>)>,
    Vec<(Identity, usize)>,
))
    requires
        system@.len() >= 1,
    ensures
        exists|draws: Seq<Identity>|
            {
                &&& draws.len() == size
                &&& forall|t: int| 0 <= t < draws.len() ==> system@.contains(#[trigger] draws[t])
                &&& contagion_sample_of(draws, r.0@, r.1@)
            },
{
    let mut draws: Vec<Identity> = Vec::new();
    for t in 0..size
        invariant
            system@.len() >= 1,
            draws@.len() == t,
            forall|j: int| 0 <= j < t ==> system@.contains(#[trigger] draws@[j]),
    {
        let i = random_index(system.len());
        draws.push(system[i]);
    }
    let r = sample_contagion_from_draws(&draws);
    proof {
        assert(draws@.len() == size && forall|t: int|
            0 <= t < draws@.len() ==> system@.contains(#[trigger] draws@[t]));
    }
    r
}

} // verus!


