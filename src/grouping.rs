//! Grouping of selector occurrences by canonical key, and the alert rules
//! generated from the groups.
use vstd::prelude::*;

use crate::duration::opt_text;
use crate::rules::{
    annotations_for, key_of, summary_text, AlertRuleView, RuleError, merge_selectors_into_rule, merged_rule, occurrence_views, AlertRule, OccurrenceView,
    SelectorWithOriginRule,
};
use crate::text::{
    is_text_less, lemma_text_less_total, lemma_text_less_transitive,
    text_less,
};

verus! {

/// The occurrences among `os` whose key is `k`, in their order.
pub open spec fn with_key(os: Seq<OccurrenceView>, k: Seq<char>) -> Seq<OccurrenceView>
    decreases os.len(),
{
    if os.len() == 0 {
        Seq::empty()
    } else {
        (if key_of(os[0]) == k {
            seq![os[0]]
        } else {
            Seq::empty()
        }) + with_key(os.drop_first(), k)
    }
}

/// Whether the ignore list holds `k` as one of its entries.
pub open spec fn ignored(ignore: Seq<String>, k: Seq<char>) -> bool {
    exists|i: int| 0 <= i < ignore.len() && #[trigger] ignore[i]@ == k
}

pub type SelectorGroup = (String, Vec<SelectorWithOriginRule>);

/// `groups` partitions the occurrences whose key is not ignored: one group
/// per key, keys in increasing order, each group holding exactly the
/// occurrences of its key in input order.
pub open spec fn is_grouping(
    os: Seq<OccurrenceView>,
    ignore: Seq<String>,
    groups: Seq<SelectorGroup>,
) -> bool {
    &&& forall|i: int| 0 <= i < groups.len() - 1 ==> text_less(#[trigger] groups[i].0@, groups[i + 1].0@)
    &&& forall|i: int, j: int|
        0 <= i < groups.len() && 0 <= j < groups.len() && i != j ==> #[trigger] groups[i].0@
            != #[trigger] groups[j].0@
    &&& forall|i: int|
        0 <= i < groups.len() ==> !ignored(ignore, #[trigger] groups[i].0@)
            && groups[i].1@.len() > 0 && occurrence_views(groups[i].1@) == with_key(os, groups[i].0@)
    &&& forall|j: int|
        0 <= j < os.len() && !ignored(ignore, key_of(#[trigger] os[j])) ==> exists|i: int|
            0 <= i < groups.len() && #[trigger] groups[i].0@ == key_of(os[j])
}

proof fn lemma_with_key_absent(os: Seq<OccurrenceView>, k: Seq<char>)
    requires
        forall|j: int| 0 <= j < os.len() ==> key_of(#[trigger] os[j]) != k,
    ensures
        with_key(os, k) == Seq::<OccurrenceView>::empty(),
    decreases os.len(),
{
    if os.len() > 0 {
        assert forall|j: int| 0 <= j < os.drop_first().len() implies key_of(
            #[trigger] os.drop_first()[j],
        ) != k by {
            assert(os.drop_first()[j] == os[j + 1]);
        }
        lemma_with_key_absent(os.drop_first(), k);
        assert(with_key(os, k) =~= Seq::<OccurrenceView>::empty());
    }
}

/// Prepending an occurrence keeps the grouping of every key but its own.
proof fn lemma_other_keys(s: Seq<OccurrenceView>, rest: Seq<OccurrenceView>, k: Seq<char>)
    requires
        s.len() > 0,
        s.drop_first() == rest,
        key_of(s[0]) != k,
    ensures
        with_key(s, k) == with_key(rest, k),
{
    assert(with_key(s, k) =~= with_key(rest, k));
}

proof fn lemma_skip(
    s: Seq<OccurrenceView>,
    rest: Seq<OccurrenceView>,
    ignore: Seq<String>,
    groups: Seq<SelectorGroup>,
)
    requires
        s.len() > 0,
        s.drop_first() == rest,
        ignored(ignore, key_of(s[0])),
        is_grouping(rest, ignore, groups),
    ensures
        is_grouping(s, ignore, groups),
{
    assert forall|i: int| 0 <= i < groups.len() implies occurrence_views(#[trigger] groups[i].1@)
        == with_key(s, groups[i].0@) by {
        lemma_other_keys(s, rest, groups[i].0@);
    }
    assert forall|j: int| 0 <= j < s.len() && !ignored(ignore, key_of(#[trigger] s[j])) implies exists|
        i: int,
    | 0 <= i < groups.len() && #[trigger] groups[i].0@ == key_of(s[j]) by {
        assert(j > 0);
        assert(s[j] == rest[j - 1]);
    }
}

#[verifier::spinoff_prover]
proof fn lemma_join(
    s: Seq<OccurrenceView>,
    rest: Seq<OccurrenceView>,
    ignore: Seq<String>,
    groups: Seq<SelectorGroup>,
    next: Seq<SelectorGroup>,
    p: int,
)
    requires
        s.len() > 0,
        s.drop_first() == rest,
        is_grouping(rest, ignore, groups),
        0 <= p < groups.len(),
        groups[p].0@ == key_of(s[0]),
        next.len() == groups.len(),
        next[p].0@ == groups[p].0@,
        occurrence_views(next[p].1@) == seq![s[0]] + occurrence_views(groups[p].1@),
        forall|i: int| 0 <= i < groups.len() && i != p ==> #[trigger] next[i] == groups[i],
    ensures
        is_grouping(s, ignore, next),
{
    assert forall|i: int| 0 <= i < next.len() implies occurrence_views(#[trigger] next[i].1@)
        == with_key(s, next[i].0@) by {
        if i == p {
            assert(with_key(s, next[i].0@) =~= seq![s[0]] + with_key(rest, groups[p].0@));
        } else {
            assert(groups[i].0@ != groups[p].0@);
            lemma_other_keys(s, rest, groups[i].0@);
        }
    }
    assert forall|i: int| 0 <= i < next.len() - 1 implies text_less(
        #[trigger] next[i].0@,
        next[i + 1].0@,
    ) by {
        assert(text_less(groups[i].0@, groups[i + 1].0@));
    }
    assert forall|i: int, j: int|
        0 <= i < next.len() && 0 <= j < next.len() && i != j implies #[trigger] next[i].0@
        != #[trigger] next[j].0@ by {
        assert(groups[i].0@ != groups[j].0@);
    }
    assert forall|i: int| 0 <= i < next.len() implies !ignored(ignore, #[trigger] next[i].0@)
        && next[i].1@.len() > 0 by {
        assert(!ignored(ignore, groups[i].0@));
        if i == p {
            assert(occurrence_views(next[p].1@).len() > 0);
        } else {
            assert(groups[i].1@.len() > 0);
        }
    }
    assert forall|j: int| 0 <= j < s.len() && !ignored(ignore, key_of(#[trigger] s[j])) implies exists|
        i: int,
    | 0 <= i < next.len() && #[trigger] next[i].0@ == key_of(s[j]) by {
        if j == 0 {
            assert(next[p].0@ == key_of(s[j]));
        } else {
            assert(s[j] == rest[j - 1]);
            let i = choose|i: int| 0 <= i < groups.len() && #[trigger] groups[i].0@ == key_of(rest[j - 1]);
            assert(next[i].0@ == groups[i].0@);
        }
    }
}

#[verifier::spinoff_prover]
#[verifier::rlimit(60)]
proof fn lemma_new_group(
    s: Seq<OccurrenceView>,
    rest: Seq<OccurrenceView>,
    ignore: Seq<String>,
    groups: Seq<SelectorGroup>,
    g: SelectorGroup,
    p: int,
)
    requires
        s.len() > 0,
        s.drop_first() == rest,
        is_grouping(rest, ignore, groups),
        g.0@ == key_of(s[0]),
        !ignored(ignore, g.0@),
        occurrence_views(g.1@) == seq![s[0]],
        0 <= p <= groups.len(),
        forall|i: int| 0 <= i < groups.len() ==> #[trigger] groups[i].0@ != g.0@,
        forall|i: int| 0 <= i < p ==> text_less(#[trigger] groups[i].0@, g.0@),
        p < groups.len() ==> text_less(g.0@, groups[p].0@),
    ensures
        is_grouping(s, ignore, groups.insert(p, g)),
{
    let next = groups.insert(p, g);
    let k = g.0@;
    assert forall|j: int| 0 <= j < rest.len() implies key_of(#[trigger] rest[j]) != k by {
        if key_of(rest[j]) == k {
            let i = choose|i: int| 0 <= i < groups.len() && #[trigger] groups[i].0@ == key_of(rest[j]);
        }
    }
    lemma_with_key_absent(rest, k);
    assert(with_key(s, k) =~= seq![s[0]]);
    assert forall|i: int| 0 <= i < next.len() implies occurrence_views(#[trigger] next[i].1@)
        == with_key(s, next[i].0@) && !ignored(ignore, next[i].0@) && next[i].1@.len() > 0 by {
        if i < p {
            assert(next[i] == groups[i]);
            lemma_other_keys(s, rest, groups[i].0@);
        } else if i > p {
            assert(next[i] == groups[i - 1]);
            lemma_other_keys(s, rest, groups[i - 1].0@);
        } else {
            assert(next[i] == g);
        }
    }
    assert forall|i: int| 0 <= i < next.len() - 1 implies text_less(
        #[trigger] next[i].0@,
        next[i + 1].0@,
    ) by {
        if i + 1 < p {
            assert(text_less(groups[i].0@, groups[i + 1].0@));
        } else if i + 1 == p {
            assert(next[i + 1] == g);
        } else if i == p {
            assert(next[i + 1] == groups[p]);
        } else {
            assert(next[i] == groups[i - 1]);
            assert(next[i + 1] == groups[i]);
            assert(text_less(groups[i - 1].0@, groups[i].0@));
        }
    }
    assert forall|i: int, j: int|
        0 <= i < next.len() && 0 <= j < next.len() && i != j implies #[trigger] next[i].0@
        != #[trigger] next[j].0@ by {
        let oi = if i < p { i } else { i - 1 };
        let oj = if j < p { j } else { j - 1 };
        if i != p && j != p {
            assert(next[i] == groups[oi]);
            assert(next[j] == groups[oj]);
            assert(groups[oi].0@ != groups[oj].0@);
        } else if i == p {
            assert(next[j] == groups[oj]);
        } else {
            assert(next[i] == groups[oi]);
        }
    }
    assert forall|j: int| 0 <= j < s.len() && !ignored(ignore, key_of(#[trigger] s[j])) implies exists|
        i: int,
    | 0 <= i < next.len() && #[trigger] next[i].0@ == key_of(s[j]) by {
        if j == 0 {
            assert(next[p].0@ == key_of(s[j]));
        } else {
            assert(s[j] == rest[j - 1]);
            let i = choose|i: int| 0 <= i < groups.len() && #[trigger] groups[i].0@ == key_of(rest[j - 1]);
            if i < p {
                assert(next[i] == groups[i]);
            } else {
                assert(next[i + 1] == groups[i]);
            }
        }
    }
}

proof fn lemma_sorted_globally(groups: Seq<SelectorGroup>, i: int, j: int)
    requires
        forall|k: int| 0 <= k < groups.len() - 1 ==> text_less(#[trigger] groups[k].0@, groups[k + 1].0@),
        0 <= i < j < groups.len(),
    ensures
        text_less(groups[i].0@, groups[j].0@),
    decreases j - i,
{
    if j > i + 1 {
        lemma_sorted_globally(groups, i, j - 1);
        lemma_text_less_transitive(groups[i].0@, groups[j - 1].0@, groups[j].0@);
    }
}

proof fn lemma_with_key_nonempty(os: Seq<OccurrenceView>, k: Seq<char>)
    requires
        with_key(os, k).len() > 0,
    ensures
        exists|j: int| 0 <= j < os.len() && key_of(#[trigger] os[j]) == k,
    decreases os.len(),
{
    if key_of(os[0]) != k {
        lemma_with_key_nonempty(os.drop_first(), k);
        let j = choose|j: int| 0 <= j < os.drop_first().len() && key_of(#[trigger] os.drop_first()[j]) == k;
        assert(os[j + 1] == os.drop_first()[j]);
    }
}

/// Each key of one grouping is a key of any other grouping of the same input.
proof fn lemma_key_shared(
    os: Seq<OccurrenceView>,
    ignore: Seq<String>,
    g1: Seq<SelectorGroup>,
    g2: Seq<SelectorGroup>,
    i: int,
) -> (j: int)
    requires
        is_grouping(os, ignore, g1),
        is_grouping(os, ignore, g2),
        0 <= i < g1.len(),
    ensures
        0 <= j < g2.len(),
        g2[j].0@ == g1[i].0@,
{
    let k = g1[i].0@;
    assert(occurrence_views(g1[i].1@).len() == g1[i].1@.len());
    lemma_with_key_nonempty(os, k);
    let m = choose|m: int| 0 <= m < os.len() && key_of(#[trigger] os[m]) == k;
    choose|j: int| 0 <= j < g2.len() && #[trigger] g2[j].0@ == key_of(os[m])
}

/// Grouping is deterministic: two groupings of the same occurrences under the
/// same ignore list have the same keys in the same order and the same
/// occurrences in each group.
#[verifier::spinoff_prover]
pub proof fn lemma_grouping_unique(
    os: Seq<OccurrenceView>,
    ignore: Seq<String>,
    g1: Seq<SelectorGroup>,
    g2: Seq<SelectorGroup>,
)
    requires
        is_grouping(os, ignore, g1),
        is_grouping(os, ignore, g2),
    ensures
        g1.len() == g2.len(),
        forall|i: int|
            0 <= i < g1.len() ==> #[trigger] g1[i].0@ == g2[i].0@ && occurrence_views(g1[i].1@)
                == occurrence_views(g2[i].1@),
{
    lemma_same_prefix(os, ignore, g1, g2, 0);
}

proof fn lemma_same_prefix(
    os: Seq<OccurrenceView>,
    ignore: Seq<String>,
    g1: Seq<SelectorGroup>,
    g2: Seq<SelectorGroup>,
    n: int,
)
    requires
        is_grouping(os, ignore, g1),
        is_grouping(os, ignore, g2),
        0 <= n <= g1.len(),
        n <= g2.len(),
        forall|i: int| 0 <= i < n ==> #[trigger] g1[i].0@ == g2[i].0@,
    ensures
        g1.len() == g2.len(),
        forall|i: int|
            0 <= i < g1.len() ==> #[trigger] g1[i].0@ == g2[i].0@ && occurrence_views(g1[i].1@)
                == occurrence_views(g2[i].1@),
    decreases g1.len() + g2.len() - 2 * n,
{
    if n < g1.len() && n < g2.len() {
        let j = lemma_key_shared(os, ignore, g1, g2, n);
        let m = lemma_key_shared(os, ignore, g2, g1, n);
        if j < n {
            assert(g1[j].0@ == g1[n].0@);
        } else if m < n {
            assert(g2[m].0@ == g2[n].0@);
        } else if j > n && m > n {
            lemma_sorted_globally(g1, n, m);
            lemma_sorted_globally(g2, n, j);
            lemma_text_less_total(g1[n].0@, g2[n].0@);
        }
        lemma_same_prefix(os, ignore, g1, g2, n + 1);
    } else if n < g1.len() {
        let j = lemma_key_shared(os, ignore, g1, g2, n);
        assert(g1[j].0@ == g1[n].0@);
    } else if n < g2.len() {
        let m = lemma_key_shared(os, ignore, g2, g1, n);
        assert(g2[m].0@ == g2[n].0@);
    } else {
        assert forall|i: int| 0 <= i < g1.len() implies #[trigger] g1[i].0@ == g2[i].0@
            && occurrence_views(g1[i].1@) == occurrence_views(g2[i].1@) by {
            assert(occurrence_views(g1[i].1@) == with_key(os, g1[i].0@));
            assert(occurrence_views(g2[i].1@) == with_key(os, g2[i].0@));
        }
    }
}

fn is_ignored(ignore: &Vec<String>, k: &String) -> (r: bool)
    ensures
        r == ignored(ignore@, k@),
{
    let mut i: usize = 0;
    while i < ignore.len()
        invariant
            i <= ignore.len(),
            forall|j: int| 0 <= j < i ==> #[trigger] ignore@[j]@ != k@,
        decreases ignore.len() - i,
    {
        if ignore[i] == *k {
            return true;
        }
        i = i + 1;
    }
    false
}

fn find_group(groups: &Vec<SelectorGroup>, k: &String) -> (r: Option<usize>)
    ensures
        r is Some ==> r->0 < groups@.len() && groups@[r->0 as int].0@ == k@,
        r is None ==> forall|i: int| 0 <= i < groups@.len() ==> #[trigger] groups@[i].0@ != k@,
{
    let mut i: usize = 0;
    while i < groups.len()
        invariant
            i <= groups.len(),
            forall|j: int| 0 <= j < i ==> #[trigger] groups@[j].0@ != k@,
        decreases groups.len() - i,
    {
        if groups[i].0 == *k {
            return Some(i);
        }
        i = i + 1;
    }
    None
}

fn insert_position(groups: &Vec<SelectorGroup>, k: &String) -> (p: usize)
    requires
        forall|i: int| 0 <= i < groups@.len() ==> #[trigger] groups@[i].0@ != k@,
    ensures
        p <= groups@.len(),
        forall|i: int| 0 <= i < p ==> text_less(#[trigger] groups@[i].0@, k@),
        p < groups@.len() ==> text_less(k@, groups@[p as int].0@),
{
    let mut i: usize = 0;
    while i < groups.len()
        invariant
            i <= groups.len(),
            forall|j: int| 0 <= j < groups@.len() ==> #[trigger] groups@[j].0@ != k@,
            forall|j: int| 0 <= j < i ==> text_less(#[trigger] groups@[j].0@, k@),
        decreases groups.len() - i,
    {
        if is_text_less(k.as_str(), groups[i].0.as_str()) {
            return i;
        }
        proof {
            lemma_text_less_total(k@, groups@[i as int].0@);
        }
        i = i + 1;
    }
    i
}

/// Groups occurrences by canonical key, dropping the keys the ignore list
/// holds: one group per remaining key, in increasing key order, each with
/// the occurrences of its key in input order.
pub fn group_selectors(selectors: Vec<SelectorWithOriginRule>, ignore: &Vec<String>) -> (r: Vec<
    SelectorGroup,
>)
    ensures
        is_grouping(occurrence_views(selectors@), ignore@, r@),
{
    let ghost all = occurrence_views(selectors@);
    let mut rest = selectors;
    let mut groups: Vec<SelectorGroup> = Vec::new();
    while rest.len() > 0
        invariant
            rest.len() <= all.len(),
            occurrence_views(rest@) == all.subrange(0, rest.len() as int),
            is_grouping(all.subrange(rest.len() as int, all.len() as int), ignore@, groups@),
        decreases rest.len(),
    {
        let ghost tail = all.subrange(rest.len() as int, all.len() as int);
        let ghost before = rest@;
        let o = rest.pop().unwrap();
        let ghost s = all.subrange(rest.len() as int, all.len() as int);
        proof {
            assert(s.drop_first() =~= tail);
            assert(occurrence_views(before)[rest.len() as int] == o@);
            assert(s[0] == o@);
            assert(occurrence_views(rest@) =~= all.subrange(0, rest.len() as int));
        }
        let k = o.sort_key();
        if is_ignored(ignore, &k) {
            proof {
                lemma_skip(s, tail, ignore@, groups@);
            }
        } else {
            match find_group(&groups, &k) {
                Some(p) => {
                    let ghost old_groups = groups@;
                    let (gk, mut gv) = groups.remove(p);
                    let ghost old_gv = gv@;
                    gv.insert(0, o);
                    assert(occurrence_views(gv@) =~= seq![o@] + occurrence_views(old_gv));
                    groups.insert(p, (gk, gv));
                    proof {
                        assert forall|i: int| 0 <= i < old_groups.len() && i != p implies #[trigger] groups@[i]
                            == old_groups[i] by {
                            if i < p {
                                assert(groups@[i] == old_groups.remove(p as int)[i]);
                            } else {
                                assert(groups@[i] == old_groups.remove(p as int)[i - 1]);
                            }
                        }
                        lemma_join(s, tail, ignore@, old_groups, groups@, p as int);
                    }
                },
                None => {
                    let p = insert_position(&groups, &k);
                    let ghost old_groups = groups@;
                    let g = (k, vec![o]);
                    assert(occurrence_views(g.1@) =~= seq![o@]);
                    groups.insert(p, g);
                    proof {
                        lemma_new_group(s, tail, ignore@, old_groups, g, p as int);
                    }
                },
            }
        }
    }
    assert(all.subrange(0, all.len() as int) =~= all);
    groups
}

/// The alert rules of a grouping, one per group, in group order.
pub fn absent_alert_rules(groups: &Vec<SelectorGroup>, playbook_link: &Option<String>) -> (r: Vec<
    AlertRule,
>)
    requires
        forall|i: int| 0 <= i < groups@.len() ==> (#[trigger] groups@[i]).1@.len() > 0,
    ensures
        r@.len() == groups@.len(),
        forall|i: int|
            0 <= i < groups@.len() ==> (#[trigger] r@[i])@ == merged_rule(
                occurrence_views(groups@[i].1@),
                opt_text(*playbook_link),
            ),
{
    let mut rules: Vec<AlertRule> = Vec::new();
    let mut i: usize = 0;
    while i < groups.len()
        invariant
            i <= groups.len(),
            forall|j: int| 0 <= j < groups@.len() ==> (#[trigger] groups@[j]).1@.len() > 0,
            rules@.len() == i,
            forall|j: int|
                0 <= j < i ==> (#[trigger] rules@[j])@ == merged_rule(
                    occurrence_views(groups@[j].1@),
                    opt_text(*playbook_link),
                ),
        decreases groups.len() - i,
    {
        let link = match playbook_link {
            Some(l) => Some(l.clone()),
            None => None,
        };
        assert(opt_text(link) == opt_text(*playbook_link));
        rules.push(merge_selectors_into_rule(&groups[i].1, link));
        i = i + 1;
    }
    rules
}

proof fn lemma_with_key_keys(os: Seq<OccurrenceView>, k: Seq<char>)
    ensures
        forall|j: int| 0 <= j < with_key(os, k).len() ==> key_of(#[trigger] with_key(os, k)[j]) == k,
    decreases os.len(),
{
    if os.len() > 0 {
        lemma_with_key_keys(os.drop_first(), k);
        let head: Seq<OccurrenceView> = if key_of(os[0]) == k {
            seq![os[0]]
        } else {
            Seq::empty()
        };
        assert forall|j: int| 0 <= j < with_key(os, k).len() implies key_of(
            #[trigger] with_key(os, k)[j],
        ) == k by {
            if j >= head.len() {
                assert(with_key(os, k)[j] == with_key(os.drop_first(), k)[j - head.len()]);
            }
        }
    }
}

proof fn lemma_with_key_contains(os: Seq<OccurrenceView>, a: int)
    requires
        0 <= a < os.len(),
    ensures
        with_key(os, key_of(os[a])).contains(os[a]),
    decreases os.len(),
{
    let k = key_of(os[a]);
    if a == 0 {
        assert(with_key(os, k)[0] == os[0]);
    } else {
        assert(os.drop_first()[a - 1] == os[a]);
        lemma_with_key_contains(os.drop_first(), a - 1);
        let i = choose|i: int| 0 <= i < with_key(os.drop_first(), k).len() && with_key(os.drop_first(), k)[i] == os[a];
        let head: Seq<OccurrenceView> = if key_of(os[0]) == k {
            seq![os[0]]
        } else {
            Seq::empty()
        };
        assert(with_key(os, k)[i + head.len()] == os[a]);
    }
}

/// Occurrences with the same canonical text, wherever they came from, land
/// in one and the same group (unless the text is ignored).
pub proof fn lemma_same_key_same_group(
    os: Seq<OccurrenceView>,
    ignore: Seq<String>,
    groups: Seq<SelectorGroup>,
    a: int,
    b: int,
)
    requires
        is_grouping(os, ignore, groups),
        0 <= a < os.len(),
        0 <= b < os.len(),
        key_of(os[a]) == key_of(os[b]),
        !ignored(ignore, key_of(os[a])),
    ensures
        exists|i: int|
            0 <= i < groups.len() && occurrence_views(#[trigger] groups[i].1@).contains(os[a])
                && occurrence_views(groups[i].1@).contains(os[b]),
{
    let i = choose|i: int| 0 <= i < groups.len() && #[trigger] groups[i].0@ == key_of(os[a]);
    lemma_with_key_contains(os, a);
    lemma_with_key_contains(os, b);
    assert(occurrence_views(groups[i].1@) == with_key(os, groups[i].0@));
}

/// A canonical text on the ignore list never reaches the output: no group
/// has it as key, and no occurrence in any group has it as text.
pub proof fn lemma_ignored_never_grouped(
    os: Seq<OccurrenceView>,
    ignore: Seq<String>,
    groups: Seq<SelectorGroup>,
    k: Seq<char>,
)
    requires
        is_grouping(os, ignore, groups),
        ignored(ignore, k),
    ensures
        forall|i: int|
            0 <= i < groups.len() ==> #[trigger] groups[i].0@ != k && forall|j: int|
                0 <= j < groups[i].1@.len() ==> key_of(#[trigger] groups[i].1@[j]@) != k,
{
    assert forall|i: int| 0 <= i < groups.len() implies #[trigger] groups[i].0@ != k && forall|j: int|
        0 <= j < groups[i].1@.len() ==> key_of(#[trigger] groups[i].1@[j]@) != k by {
        assert(!ignored(ignore, groups[i].0@));
        lemma_with_key_keys(os, groups[i].0@);
        assert forall|j: int| 0 <= j < groups[i].1@.len() implies key_of(#[trigger] groups[i].1@[j]@)
            != k by {
            assert(occurrence_views(groups[i].1@)[j] == groups[i].1@[j]@);
        }
    }
}

pub type FileSelectors = Result<Vec<SelectorWithOriginRule>, Vec<RuleError>>;

/// The occurrences of the files that were read without problems, in file order.
pub open spec fn files_occurrences(files: Seq<FileSelectors>) -> Seq<OccurrenceView>
    decreases files.len(),
{
    if files.len() == 0 {
        Seq::empty()
    } else {
        files_occurrences(files.drop_last()) + match files.last() {
            Ok(v) => occurrence_views(v@),
            Err(_) => Seq::empty(),
        }
    }
}

/// Gathers the occurrences of every file and reports whether any file failed.
pub fn collect_file_selectors(files: &Vec<FileSelectors>) -> (r: (Vec<SelectorWithOriginRule>, bool))
    ensures
        occurrence_views(r.0@) == files_occurrences(files@),
        r.1 <==> exists|i: int| 0 <= i < files@.len() && (#[trigger] files@[i]) is Err,
{
    let mut occs: Vec<SelectorWithOriginRule> = Vec::new();
    let mut failed = false;
    let mut i: usize = 0;
    while i < files.len()
        invariant
            i <= files.len(),
            occurrence_views(occs@) == files_occurrences(files@.subrange(0, i as int)),
            failed <==> exists|j: int| 0 <= j < i && (#[trigger] files@[j]) is Err,
        decreases files.len() - i,
    {
        let ghost prev = occs@;
        match &files[i] {
            Ok(v) => {
                let mut j: usize = 0;
                while j < v.len()
                    invariant
                        j <= v.len(),
                        occurrence_views(occs@) == occurrence_views(prev) + occurrence_views(
                            v@.subrange(0, j as int),
                        ),
                    decreases v.len() - j,
                {
                    let ghost before = occs@;
                    occs.push(v[j].duplicate());
                    j = j + 1;
                    assert(occurrence_views(occs@) =~= occurrence_views(before).push(v@[j - 1]@));
                    assert(occurrence_views(v@.subrange(0, j as int)) =~= occurrence_views(
                        v@.subrange(0, j - 1 as int),
                    ).push(v@[j - 1]@));
                }
                assert(v@.subrange(0, j as int) =~= v@);
            },
            Err(_) => {
                failed = true;
                assert(occurrence_views(occs@) =~= occurrence_views(prev) + Seq::<OccurrenceView>::empty());
            },
        }
        i = i + 1;
        assert(files@.subrange(0, i as int).drop_last() =~= files@.subrange(0, i - 1 as int));
    }
    assert(files@.subrange(0, i as int) =~= files@);
    (occs, failed)
}

pub open spec fn rule_views(rules: Seq<AlertRule>) -> Seq<AlertRuleView> {
    rules.map_values(|r: AlertRule| r@)
}

/// `rules` holds, in order, the rule synthesized for each group.
pub open spec fn rule_output_of(
    groups: Seq<SelectorGroup>,
    rules: Seq<AlertRuleView>,
    playbook: Option<Seq<char>>,
) -> bool {
    &&& rules.len() == groups.len()
    &&& forall|i: int|
        0 <= i < groups.len() ==> #[trigger] rules[i] == merged_rule(
            occurrence_views(groups[i].1@),
            playbook,
        )
}

/// `rules` is the output of a run over the occurrences `os`: the rules of
/// some grouping of them.
pub open spec fn is_run_output(
    os: Seq<OccurrenceView>,
    ignore: Seq<String>,
    playbook: Option<Seq<char>>,
    rules: Seq<AlertRuleView>,
) -> bool {
    exists|groups: Seq<SelectorGroup>|
        is_grouping(os, ignore, groups) && #[trigger] rule_output_of(groups, rules, playbook)
}

/// Runs are idempotent: two runs over the same occurrences, ignore list and
/// playbook link produce the same rules, in the same order.
pub proof fn lemma_run_output_unique(
    os: Seq<OccurrenceView>,
    ignore: Seq<String>,
    playbook: Option<Seq<char>>,
    a: Seq<AlertRuleView>,
    b: Seq<AlertRuleView>,
)
    requires
        is_run_output(os, ignore, playbook, a),
        is_run_output(os, ignore, playbook, b),
    ensures
        a == b,
{
    let ga = choose|g: Seq<SelectorGroup>| is_grouping(os, ignore, g) && #[trigger] rule_output_of(g, a, playbook);
    let gb = choose|g: Seq<SelectorGroup>| is_grouping(os, ignore, g) && #[trigger] rule_output_of(g, b, playbook);
    lemma_grouping_unique(os, ignore, ga, gb);
    assert forall|i: int| 0 <= i < a.len() implies a[i] == b[i] by {
        assert(ga[i].0@ == gb[i].0@);
        let x = occurrence_views(ga[i].1@);
        let y = occurrence_views(gb[i].1@);
        assert(x == y);
        assert(a[i] == merged_rule(x, playbook));
        assert(b[i] == merged_rule(y, playbook));
    }
    assert(a =~= b);
}

proof fn lemma_annotations_injective(a: Seq<char>, b: Seq<char>)
    requires
        annotations_for(a) == annotations_for(b),
    ensures
        a == b,
{
    let sa = summary_text(a);
    let sb = summary_text(b);
    assert(sa == annotations_for(a)[1].1);
    assert(sb == annotations_for(b)[1].1);
    let n: int = "No data for '"@.len() as int;
    assert(a.len() == b.len());
    assert(sa.subrange(n, n + a.len() as int) =~= a);
    assert(sb.subrange(n, n + b.len() as int) =~= b);
}

/// In a run's output, the rule for a canonical text that is not ignored is
/// the one merged from every occurrence of that text, whichever file it came
/// from, in input order; and it is the only rule whose annotations name
/// that text.
pub proof fn lemma_rule_for_key(
    os: Seq<OccurrenceView>,
    ignore: Seq<String>,
    playbook: Option<Seq<char>>,
    rules: Seq<AlertRuleView>,
    j: int,
)
    requires
        is_run_output(os, ignore, playbook, rules),
        0 <= j < os.len(),
        !ignored(ignore, key_of(os[j])),
    ensures
        exists|i: int|
            0 <= i < rules.len() && #[trigger] rules[i] == merged_rule(
                with_key(os, key_of(os[j])),
                playbook,
            ) && forall|i2: int|
                0 <= i2 < rules.len() && (#[trigger] rules[i2]).annotations == annotations_for(
                    key_of(os[j]),
                ) ==> i2 == i,
{
    let k = key_of(os[j]);
    let g = choose|g: Seq<SelectorGroup>| is_grouping(os, ignore, g) && #[trigger] rule_output_of(g, rules, playbook);
    let i = choose|i: int| 0 <= i < g.len() && #[trigger] g[i].0@ == k;
    assert(occurrence_views(g[i].1@) == with_key(os, g[i].0@));
    assert(rules[i] == merged_rule(occurrence_views(g[i].1@), playbook));
    assert forall|i2: int|
        0 <= i2 < rules.len() && (#[trigger] rules[i2]).annotations == annotations_for(k) implies i2
        == i by {
        let gk = g[i2].0@;
        let members = occurrence_views(g[i2].1@);
        assert(!ignored(ignore, gk));
        assert(members == with_key(os, gk));
        assert(g[i2].1@.len() > 0);
        lemma_with_key_keys(os, gk);
        assert(key_of(members[0]) == gk);
        assert(rules[i2] == merged_rule(members, playbook));
        reveal(key_of);
        assert(rules[i2].annotations == annotations_for(gk));
        lemma_annotations_injective(gk, k);
        if i2 != i {
            assert(g[i2].0@ != g[i].0@);
        }
    }
}

/// Whether a rule file is the output file: both canonical paths are known
/// and equal.
pub open spec fn is_output_path(path: Option<String>, output: Option<Option<String>>) -> bool {
    match (path, output) {
        (Some(p), Some(Some(o))) => p@ == o@,
        _ => false,
    }
}

/// Decides which rule files are read: every one but the output file, so that
/// a run never reads its own earlier output. `paths` holds each file's
/// canonical path (`None` where it could not be resolved); `output` is `None`
/// where the output file does not exist yet, else its canonical path if it
/// could be resolved. The flag reports a path that could not be resolved
/// while the output file exists.
pub fn files_to_read(paths: &Vec<Option<String>>, output: &Option<Option<String>>) -> (r: (
    Vec<bool>,
    bool,
))
    ensures
        r.0@.len() == paths@.len(),
        forall|i: int| 0 <= i < paths@.len() ==> #[trigger] r.0@[i] == !is_output_path(paths@[i], *output),
        r.1 <==> (*output is Some && (output->0 is None || exists|i: int|
            0 <= i < paths@.len() && (#[trigger] paths@[i]) is None)),
{
    let mut read: Vec<bool> = Vec::new();
    let mut failed = match output {
        Some(None) => true,
        _ => false,
    };
    let mut i: usize = 0;
    while i < paths.len()
        invariant
            i <= paths.len(),
            read@.len() == i,
            forall|j: int| 0 <= j < i ==> #[trigger] read@[j] == !is_output_path(paths@[j], *output),
            failed <==> (*output is Some && (output->0 is None || exists|j: int|
                0 <= j < i && (#[trigger] paths@[j]) is None)),
        decreases paths.len() - i,
    {
        let same = match (&paths[i], output) {
            (Some(p), Some(Some(o))) => *p == *o,
            (None, Some(_)) => {
                failed = true;
                false
            },
            _ => false,
        };
        read.push(!same);
        i = i + 1;
    }
    (read, failed)
}

/// The alert rules of a whole run: `None` when any file failed (so that no
/// output is written), else one rule per group of a grouping of every
/// occurrence.
pub fn generate_absent_rules(
    files: &Vec<FileSelectors>,
    ignore: &Vec<String>,
    playbook_link: &Option<String>,
) -> (r: Option<Vec<AlertRule>>)
    ensures
        r is None <==> exists|i: int| 0 <= i < files@.len() && (#[trigger] files@[i]) is Err,
        r is Some ==> is_run_output(
            files_occurrences(files@),
            ignore@,
            opt_text(*playbook_link),
            rule_views(r->0@),
        ),
{
    let (occs, failed) = collect_file_selectors(files);
    if failed {
        return None;
    }
    let groups = group_selectors(occs, ignore);
    assert forall|i: int| 0 <= i < groups@.len() implies (#[trigger] groups@[i]).1@.len() > 0 by {
        assert(!ignored(ignore@, groups@[i].0@));
    }
    let rules = absent_alert_rules(&groups, playbook_link);
    assert(is_grouping(files_occurrences(files@), ignore@, groups@));
    assert(rule_output_of(groups@, rule_views(rules@), opt_text(*playbook_link)));
    Some(rules)
}

} // verus!
