//! The search pass: score every addressed candidate against the effective
//! query, keep the ones that match, and order them by descending rank with
//! registration order breaking ties.

use vstd::prelude::*;
use vstd::seq_lib::lemma_multiset_commutative;
use crate::matcher::{fuzzy_positions, fuzzy_rank, fuzzy_score};
use crate::plugin::{Label, Registry};

verus! {

broadcast use vstd::seq_lib::group_seq_properties;

/// One ranked result: the candidate's text, where it came from, its rank,
/// and the matched character positions for highlighting.
pub struct Entry {
    pub name: String,
    pub comment: Option<String>,
    pub icon: Option<String>,
    pub label: Label,
    pub rank: u16,
    pub matched: Vec<u32>,
}

/// Registration order of labels: plugin first, then entry.
pub open spec fn lex_lt(a: Label, b: Label) -> bool {
    a.plugin < b.plugin || (a.plugin == b.plugin && a.index < b.index)
}

/// Delivery order of entries: higher rank first; among equal ranks,
/// registration order.
pub open spec fn before(a: Entry, b: Entry) -> bool {
    a.rank > b.rank || (a.rank == b.rank && lex_lt(a.label, b.label))
}

/// The labels of a sequence of entries, in the same order.
pub open spec fn labels_of(s: Seq<Entry>) -> Seq<Label> {
    s.map_values(|e: Entry| e.label)
}

/// Every pair of the sequence stands in delivery order.
pub open spec fn strict_sorted(s: Seq<Entry>) -> bool {
    forall|i: int, j: int| 0 <= i < j < s.len() ==> before(s[i], s[j])
}

/// Labels strictly increase in registration order along the sequence.
pub open spec fn labels_increasing(s: Seq<Entry>) -> bool {
    forall|i: int, j: int| 0 <= i < j < s.len() ==> lex_lt(s[i].label, s[j].label)
}

/// Inserting an element anywhere adds exactly it to the sequence's multiset.
proof fn lemma_insert_to_multiset(s: Seq<Entry>, k: int, e: Entry)
    requires
        0 <= k <= s.len(),
    ensures
        s.insert(k, e).to_multiset() == s.to_multiset().insert(e),
{
    broadcast use vstd::seq_lib::group_to_multiset_ensures;

    let pre = s.subrange(0, k);
    let post = s.subrange(k, s.len() as int);
    assert(s.insert(k, e) =~= pre.push(e) + post);
    assert(s =~= pre + post);
    lemma_multiset_commutative(pre.push(e), post);
    lemma_multiset_commutative(pre, post);
    assert(pre.push(e).to_multiset() == pre.to_multiset().insert(e));
    assert(s.insert(k, e).to_multiset() =~= s.to_multiset().insert(e));
}

/// Order the entries for delivery: by strictly non-increasing rank, equal
/// ranks keeping the registration order the input came in. The result holds
/// exactly the input's entries; an input already in delivery order comes back
/// unchanged.
pub fn sort_entries(v: Vec<Entry>) -> (out: Vec<Entry>)
    requires
        labels_increasing(v@),
    ensures
        out@.to_multiset() == v@.to_multiset(),
        strict_sorted(out@),
        strict_sorted(v@) ==> out@ == v@,
{
    let ghost orig: Seq<Entry> = v@;
    let ghost done: Seq<Entry> = Seq::empty();
    let mut rest = v;
    let mut out: Vec<Entry> = Vec::new();
    let ghost mut g_done = done;
    proof {
        broadcast use vstd::seq_lib::group_to_multiset_ensures;

        assert(orig =~= g_done + rest@);
    }
    while rest.len() > 0
        invariant
            orig == g_done + rest@,
            out@.to_multiset() == g_done.to_multiset(),
            strict_sorted(out@),
            labels_increasing(rest@),
            forall|a: int, b: int|
                0 <= a < out@.len() && 0 <= b < rest@.len() ==> lex_lt(
                    out@[a].label,
                    rest@[b].label,
                ),
            strict_sorted(orig) ==> out@ == g_done,
        decreases rest@.len(),
    {
        let e = rest.remove(0);
        let mut k: usize = 0;
        while k < out.len() && out[k].rank >= e.rank
            invariant
                k <= out@.len(),
                forall|t: int| 0 <= t < k ==> out@[t].rank >= e.rank,
            decreases out@.len() - k,
        {
            k = k + 1;
        }
        proof {
            broadcast use vstd::seq_lib::group_to_multiset_ensures;

            assert(forall|t: int|
                k < t < out@.len() ==> before(out@[k as int], #[trigger] out@[t]));
            assert(forall|t: int| k <= t < out@.len() ==> (#[trigger] out@[t]).rank < e.rank);
            lemma_insert_to_multiset(out@, k as int, e);
            assert(orig =~= g_done + (seq![e] + rest@));
            assert(orig[g_done.len() as int] == e);
            if strict_sorted(orig) && k < out.len() {
                assert(before(orig[k as int], orig[g_done.len() as int]));
                assert(false);
            }
            g_done = g_done.push(e);
        }
        out.insert(k, e);
        proof {
            assert(orig =~= g_done + rest@);
            assert(strict_sorted(out@)) by {
                assert(forall|i: int, j: int|
                    0 <= i < j < out@.len() && j < k ==> before(out@[i], out@[j]));
                assert(forall|i: int, j: int|
                    0 <= i < j < out@.len() && i > k ==> before(out@[i], out@[j]));
            }
        }
    }
    proof {
        assert(orig =~= g_done);
    }
    out
}

/// The labels of plugin `i`'s candidates from position `j` on whose names
/// match `q`, in registration order.
pub open spec fn scored_from(reg: Registry, q: Seq<char>, i: int, j: int) -> Seq<Label>
    decreases reg.plugins@[i].candidates@.len() - j,
{
    if i < 0 || i >= reg.plugins@.len() || j < 0 || j >= reg.plugins@[i].candidates@.len() {
        Seq::empty()
    } else {
        let rest = scored_from(reg, q, i, j + 1);
        if fuzzy_rank(q, reg.plugins@[i].candidates@[j].name@) is Some {
            seq![Label { plugin: i as usize, index: j as usize }] + rest
        } else {
            rest
        }
    }
}

/// The labels of all matching candidates of plugins from `i` on, in
/// registration order.
pub open spec fn scored_merge(reg: Registry, q: Seq<char>, i: int) -> Seq<Label>
    decreases reg.plugins@.len() - i,
{
    if i < 0 || i >= reg.plugins@.len() {
        Seq::empty()
    } else {
        scored_from(reg, q, i, 0) + scored_merge(reg, q, i + 1)
    }
}

/// The labels the search pass keeps for `input`: the addressed plugin's
/// matching candidates in single-plugin mode, every plugin's in merge mode.
pub open spec fn scored(reg: Registry, input: Seq<char>) -> Seq<Label> {
    match reg.resolved(input) {
        Some(i) => scored_from(reg, reg.effective(input), i, 0),
        None => scored_merge(reg, input, 0),
    }
}

/// The labels of plugin `i`'s candidates from position `j` on, all of them.
pub open spec fn all_from(reg: Registry, i: int, j: int) -> Seq<Label>
    decreases reg.plugins@[i].candidates@.len() - j,
{
    if i < 0 || i >= reg.plugins@.len() || j < 0 || j >= reg.plugins@[i].candidates@.len() {
        Seq::empty()
    } else {
        seq![Label { plugin: i as usize, index: j as usize }] + all_from(reg, i, j + 1)
    }
}

/// The labels of every candidate of plugins from `i` on, in registration
/// order.
pub open spec fn all_merge(reg: Registry, i: int) -> Seq<Label>
    decreases reg.plugins@.len() - i,
{
    if i < 0 || i >= reg.plugins@.len() {
        Seq::empty()
    } else {
        all_from(reg, i, 0) + all_merge(reg, i + 1)
    }
}

/// Every candidate's label, in registration order.
pub open spec fn all_labels(reg: Registry) -> Seq<Label> {
    all_merge(reg, 0)
}

/// Every label that single-plugin scoring keeps belongs to that plugin.
pub proof fn lemma_scored_from_owner(reg: Registry, q: Seq<char>, i: int, j: int)
    ensures
        forall|k: int|
            0 <= k < scored_from(reg, q, i, j).len() ==> (#[trigger] scored_from(
                reg,
                q,
                i,
                j,
            )[k]).plugin == i as usize,
    decreases reg.plugins@[i].candidates@.len() - j,
{
    if i < 0 || i >= reg.plugins@.len() || j < 0 || j >= reg.plugins@[i].candidates@.len() {
    } else {
        lemma_scored_from_owner(reg, q, i, j + 1);
        let rest = scored_from(reg, q, i, j + 1);
        let whole = scored_from(reg, q, i, j);
        if fuzzy_rank(q, reg.plugins@[i].candidates@[j].name@) is Some {
            assert forall|k: int| 0 <= k < whole.len() implies (#[trigger] whole[k]).plugin
                == i as usize by {
                if k > 0 {
                    assert(whole[k] == rest[k - 1]);
                }
            }
        }
    }
}

/// An input that carries a recognized prefix draws every delivered entry
/// from that one plugin: in single-plugin mode no sibling contributes.
pub proof fn lemma_single_plugin_mode(reg: Registry, input: Seq<char>, i: int, l: Label)
    requires
        reg.resolved(input) == Some(i),
        scored(reg, input).contains(l),
    ensures
        l.plugin == i as usize,
{
    lemma_scored_from_owner(reg, reg.effective(input), i, 0);
}

/// The stability law, spelt out: in a delivery-ordered sequence, ranks never
/// increase, and entries of equal rank stand in their registration order.
pub proof fn lemma_delivery_order(s: Seq<Entry>, i: int, j: int)
    requires
        strict_sorted(s),
        0 <= i < j < s.len(),
    ensures
        s[i].rank >= s[j].rank,
        s[i].rank == s[j].rank ==> lex_lt(s[i].label, s[j].label),
{
    assert(before(s[i], s[j]));
}

/// The entry truthfully describes the candidate its label points at, scored
/// against query `q`: same texts, a rank the matcher in fact gives the name,
/// and the matcher's highlight positions.
pub open spec fn entry_ok(reg: Registry, q: Seq<char>, e: Entry) -> bool {
    let i = e.label.plugin as int;
    let j = e.label.index as int;
    &&& i < reg.plugins@.len()
    &&& j < reg.plugins@[i].candidates@.len()
    &&& e.name@ == reg.plugins@[i].candidates@[j].name@
    &&& e.comment == reg.plugins@[i].candidates@[j].comment
    &&& e.icon == reg.plugins@[i].candidates@[j].icon
    &&& fuzzy_rank(q, e.name@) == Some(e.rank)
    &&& e.matched@ == fuzzy_positions(q, e.name@)
}

/// Score one plugin's candidates against `q`, keeping the ones that match,
/// in registration order.
fn score_plugin(reg: &Registry, pi: usize, q: &str) -> (out: Vec<Entry>)
    requires
        reg.wf(),
        pi < reg.plugins@.len(),
    ensures
        labels_of(out@) == scored_from(*reg, q@, pi as int, 0),
        forall|k: int| 0 <= k < out@.len() ==> entry_ok(*reg, q@, #[trigger] out@[k]),
        forall|k: int|
            0 <= k < out@.len() ==> (#[trigger] out@[k]).label.plugin == pi
                && out@[k].label.index < reg.plugins@[pi as int].candidates@.len(),
        labels_increasing(out@),
        q@.len() == 0 ==> labels_of(out@) == all_from(*reg, pi as int, 0),
        q@.len() == 0 ==> forall|k: int| 0 <= k < out@.len() ==> (#[trigger] out@[k]).rank == 0,
{
    let mut out: Vec<Entry> = Vec::new();
    let n = reg.plugins[pi].candidates.len();
    let mut j: usize = 0;
    while j < n
        invariant
            reg.wf(),
            pi < reg.plugins@.len(),
            j <= n,
            n == reg.plugins@[pi as int].candidates@.len(),
            scored_from(*reg, q@, pi as int, 0) == labels_of(out@)
                + scored_from(*reg, q@, pi as int, j as int),
            forall|k: int| 0 <= k < out@.len() ==> entry_ok(*reg, q@, #[trigger] out@[k]),
            forall|k: int|
                0 <= k < out@.len() ==> (#[trigger] out@[k]).label.plugin == pi
                    && out@[k].label.index < j,
            labels_increasing(out@),
            q@.len() == 0 ==> all_from(*reg, pi as int, 0) == labels_of(out@)
                + all_from(*reg, pi as int, j as int),
            q@.len() == 0 ==> forall|k: int|
                0 <= k < out@.len() ==> (#[trigger] out@[k]).rank == 0,
        decreases n - j,
    {
        let cand = &reg.plugins[pi].candidates[j];
        let ghost prev = out@;
        match fuzzy_score(q, cand.name.as_str()) {
            Some(p) => {
                let comment = match &cand.comment {
                    Some(s) => Some(s.clone()),
                    None => None,
                };
                let icon = match &cand.icon {
                    Some(s) => Some(s.clone()),
                    None => None,
                };
                let e = Entry {
                    name: cand.name.clone(),
                    comment,
                    icon,
                    label: Label { plugin: pi, index: j },
                    rank: p.0,
                    matched: p.1,
                };
                out.push(e);
                proof {
                    assert(labels_of(out@) =~= labels_of(prev).push(e.label));
                    assert(labels_of(prev).push(e.label) =~= labels_of(prev)
                        + seq![e.label]);
                    assert(labels_of(out@) + scored_from(*reg, q@, pi as int, j + 1)
                        =~= labels_of(prev) + (seq![e.label] + scored_from(
                        *reg,
                        q@,
                        pi as int,
                        j + 1,
                    )));
                    if q@.len() == 0 {
                        assert(labels_of(out@) + all_from(*reg, pi as int, j + 1)
                            =~= labels_of(prev) + (seq![e.label] + all_from(
                            *reg,
                            pi as int,
                            j + 1,
                        )));
                    }
                }
            },
            None => {
                proof {
                    assert(scored_from(*reg, q@, pi as int, j as int) == scored_from(
                        *reg,
                        q@,
                        pi as int,
                        j + 1,
                    ));
                }
            },
        }
        j = j + 1;
    }
    proof {
        assert(scored_from(*reg, q@, pi as int, n as int) =~= Seq::<Label>::empty());
        assert(labels_of(out@) + Seq::<Label>::empty() =~= labels_of(out@));
        if q@.len() == 0 {
            assert(all_from(*reg, pi as int, n as int) =~= Seq::<Label>::empty());
        }
    }
    out
}

/// One full search pass over the registry. The result is sound (every entry
/// truthfully describes a matching candidate of the addressed plugin set),
/// complete (every matching candidate appears), and ordered for delivery:
/// strictly non-increasing rank, equal ranks in registration order. An empty
/// input keeps every candidate, in registration order, all at rank zero.
pub fn run_search(reg: &Registry, input: &str) -> (out: Vec<Entry>)
    requires
        reg.wf(),
    ensures
        strict_sorted(out@),
        out@.len() == scored(*reg, input@).len(),
        forall|k: int|
            0 <= k < out@.len() ==> entry_ok(*reg, reg.effective(input@), #[trigger] out@[k]),
        forall|k: int| 0 <= k < out@.len() ==> scored(*reg, input@).contains(
            (#[trigger] out@[k]).label,
        ),
        forall|l: Label|
            scored(*reg, input@).contains(l) ==> exists|k: int|
                0 <= k < out@.len() && (#[trigger] out@[k]).label == l,
        input@.len() == 0 ==> labels_of(out@) == all_labels(*reg),
        input@.len() == 0 ==> forall|k: int|
            0 <= k < out@.len() ==> (#[trigger] out@[k]).rank == 0,
{
    broadcast use vstd::seq_lib::group_to_multiset_ensures;

    let sel = reg.resolve(input);
    let q = reg.effective_query(input);
    let mut c: Vec<Entry>;
    match sel {
        Some(i) => {
            proof {
                reg.lemma_first_route_some(input@, 0, i as int);
            }
            c = score_plugin(reg, i, q.as_str());
        },
        None => {
            c = Vec::new();
            let n = reg.plugins.len();
            let mut pi: usize = 0;
            while pi < n
                invariant
                    reg.wf(),
                    pi <= n,
                    n == reg.plugins@.len(),
                    reg.resolved(input@) is None,
                    q@ == input@,
                    scored_merge(*reg, input@, 0) == labels_of(c@) + scored_merge(
                        *reg,
                        input@,
                        pi as int,
                    ),
                    forall|k: int| 0 <= k < c@.len() ==> entry_ok(*reg, input@, #[trigger] c@[k]),
                    forall|k: int| 0 <= k < c@.len() ==> (#[trigger] c@[k]).label.plugin < pi,
                    labels_increasing(c@),
                    input@.len() == 0 ==> all_merge(*reg, 0) == labels_of(c@) + all_merge(
                        *reg,
                        pi as int,
                    ),
                    input@.len() == 0 ==> forall|k: int|
                        0 <= k < c@.len() ==> (#[trigger] c@[k]).rank == 0,
                decreases n - pi,
            {
                let ghost prev = c@;
                let mut part = score_plugin(reg, pi, q.as_str());
                let ghost part_seq = part@;
                c.append(&mut part);
                proof {
                    assert(labels_of(part_seq) == scored_from(*reg, input@, pi as int, 0));
                    assert(scored_merge(*reg, input@, pi as int) == scored_from(
                        *reg,
                        input@,
                        pi as int,
                        0,
                    ) + scored_merge(*reg, input@, pi + 1));
                    assert(labels_of(c@) =~= labels_of(prev) + labels_of(part_seq));
                    assert(labels_of(prev) + (labels_of(part_seq) + scored_merge(
                        *reg,
                        input@,
                        pi + 1,
                    )) =~= (labels_of(prev) + labels_of(part_seq)) + scored_merge(
                        *reg,
                        input@,
                        pi + 1,
                    ));
                    assert(scored_merge(*reg, input@, 0) == labels_of(c@) + scored_merge(
                        *reg,
                        input@,
                        pi + 1,
                    ));
                    if input@.len() == 0 {
                        assert(labels_of(part_seq) == all_from(*reg, pi as int, 0));
                        assert(all_merge(*reg, pi as int) == all_from(*reg, pi as int, 0)
                            + all_merge(*reg, pi + 1));
                        assert(labels_of(prev) + (labels_of(part_seq) + all_merge(
                            *reg,
                            pi + 1,
                        )) =~= (labels_of(prev) + labels_of(part_seq)) + all_merge(
                            *reg,
                            pi + 1,
                        ));
                        assert(all_merge(*reg, 0) == labels_of(c@) + all_merge(
                            *reg,
                            pi + 1,
                        ));
                    }
                }
                pi = pi + 1;
            }
            proof {
                assert(scored_merge(*reg, input@, n as int) =~= Seq::<Label>::empty());
                assert(labels_of(c@) + Seq::<Label>::empty() =~= labels_of(c@));
                if input@.len() == 0 {
                    assert(all_merge(*reg, n as int) =~= Seq::<Label>::empty());
                }
            }
        },
    }
    proof {
        assert(labels_of(c@) == scored(*reg, input@));
        assert(labels_of(c@).len() == c@.len());
        assert(forall|k: int|
            0 <= k < c@.len() ==> (#[trigger] c@[k]).label == labels_of(c@)[k]);
        if input@.len() == 0 {
            reg.lemma_resolved_empty(input@, 0);
            assert(forall|i: int, j: int|
                0 <= i < j < c@.len() ==> before(#[trigger] c@[i], #[trigger] c@[j]));
        }
    }
    let ghost c_seq = c@;
    let out = sort_entries(c);
    proof {
        assert(out@.len() == out@.to_multiset().len());
        assert(c_seq.len() == c_seq.to_multiset().len());
        assert(forall|k: int| 0 <= k < out@.len() ==> c_seq.contains(#[trigger] out@[k])) by {
            assert(forall|k: int|
                0 <= k < out@.len() ==> c_seq.to_multiset().count(#[trigger] out@[k]) > 0);
        }
        assert(forall|k: int| 0 <= k < c_seq.len() ==> out@.contains(#[trigger] c_seq[k])) by {
            assert(forall|k: int|
                0 <= k < c_seq.len() ==> out@.to_multiset().count(#[trigger] c_seq[k]) > 0);
        }
        assert(forall|m: int|
            0 <= m < c_seq.len() ==> (#[trigger] c_seq[m]).label == labels_of(c_seq)[m]);
        assert forall|k: int| 0 <= k < out@.len() implies scored(*reg, input@).contains(
            (#[trigger] out@[k]).label,
        ) by {
            assert(c_seq.contains(out@[k]));
            let m = choose|m: int| 0 <= m < c_seq.len() && c_seq[m] == out@[k];
            assert(scored(*reg, input@)[m] == out@[k].label);
        }
        assert forall|l: Label| scored(*reg, input@).contains(l) implies exists|k: int|
            0 <= k < out@.len() && (#[trigger] out@[k]).label == l by {
            let sc = scored(*reg, input@);
            let m = choose|m: int| 0 <= m < sc.len() && sc[m] == l;
            assert(c_seq[m].label == l);
            assert(out@.contains(c_seq[m]));
            let k = choose|k: int| 0 <= k < out@.len() && out@[k] == c_seq[m];
            assert(out@[k].label == l);
        }
        assert forall|k: int| 0 <= k < out@.len() implies entry_ok(
            *reg,
            reg.effective(input@),
            #[trigger] out@[k],
        ) by {
            assert(c_seq.contains(out@[k]));
            let m = choose|m: int| 0 <= m < c_seq.len() && c_seq[m] == out@[k];
            assert(entry_ok(*reg, reg.effective(input@), c_seq[m]));
        }
        if input@.len() == 0 {
            assert(out@ == c_seq);
        }
    }
    out
}

} // verus!
