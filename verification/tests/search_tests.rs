//! Routing, scoring, ordering, and empty-query behaviour of the search pass.

use keal::plugin::{Action, Candidate, Plugin, Registry};
use keal::search::{run_search, sort_entries, Entry};
use keal::plugin::Label;

fn cand(name: &str) -> Candidate {
    Candidate { name: name.to_string(), comment: None, icon: None, action: Action::Nothing }
}

fn plugin(prefix: &str, names: &[&str]) -> Plugin {
    Plugin {
        prefix: prefix.to_string(),
        candidates: names.iter().map(|n| cand(n)).collect(),
    }
}

fn registry() -> Registry {
    Registry {
        plugins: vec![
            plugin("app", &["editor", "terminal", "browser"]),
            plugin("run", &["format", "found"]),
        ],
    }
}

#[test]
fn resolve_prefix_routes_to_plugin() {
    let reg = registry();
    assert_eq!(reg.resolve("run foo"), Some(1));
    assert_eq!(reg.effective_query("run foo"), "foo");
    assert_eq!(reg.resolve("app "), Some(0));
    assert_eq!(reg.effective_query("app "), "");
}

#[test]
fn resolve_without_prefix_is_merge_mode() {
    let reg = registry();
    assert_eq!(reg.resolve("editor"), None);
    assert_eq!(reg.effective_query("editor"), "editor");
    // the prefix alone, with no following space, does not route
    assert_eq!(reg.resolve("run"), None);
    assert_eq!(reg.resolve(""), None);
}

#[test]
fn empty_query_keeps_registration_order_at_constant_rank() {
    let reg = registry();
    let out = run_search(&reg, "");
    assert_eq!(out.len(), 5);
    let labels: Vec<(usize, usize)> = out.iter().map(|e| (e.label.plugin, e.label.index)).collect();
    assert_eq!(labels, vec![(0, 0), (0, 1), (0, 2), (1, 0), (1, 1)]);
    for e in &out {
        assert_eq!(e.rank, 0);
        assert!(e.matched.is_empty());
    }
    assert_eq!(out[0].name, "editor");
    assert_eq!(out[4].name, "found");
}

#[test]
fn prefixed_input_scopes_to_one_plugin() {
    let reg = registry();
    // "fo" is an ordered subsequence of both of the run plugin's candidates,
    // and of none of the app plugin's; only the run plugin may contribute.
    let out = run_search(&reg, "run fo");
    assert_eq!(out.len(), 2);
    for e in &out {
        assert_eq!(e.label.plugin, 1);
    }
    let format = out.iter().find(|e| e.name == "format").expect("format missing");
    let found = out.iter().find(|e| e.name == "found").expect("found missing");
    assert!(found.rank >= format.rank);
    // the matched positions mark the f, o subsequence in each name
    for e in [format, found] {
        let chars: Vec<char> = e.name.chars().collect();
        let marked: Vec<char> = e.matched.iter().map(|&i| chars[i as usize]).collect();
        assert_eq!(marked, vec!['f', 'o']);
    }
}

#[test]
fn unmatched_query_yields_empty_list() {
    let reg = registry();
    let out = run_search(&reg, "run zzz");
    assert!(out.is_empty());
}

#[test]
fn merge_mode_queries_all_plugins() {
    let reg = registry();
    let out = run_search(&reg, "o");
    // every candidate containing an "o": editor, browser, format, found
    let mut names: Vec<&str> = out.iter().map(|e| e.name.as_str()).collect();
    names.sort();
    assert_eq!(names, vec!["browser", "editor", "format", "found"]);
}

#[test]
fn ranks_never_increase_and_ties_keep_registration_order() {
    let reg = Registry {
        plugins: vec![plugin("a", &["same", "same"]), plugin("b", &["same"])],
    };
    let out = run_search(&reg, "same");
    assert_eq!(out.len(), 3);
    for w in out.windows(2) {
        assert!(w[0].rank >= w[1].rank);
        if w[0].rank == w[1].rank {
            assert!(
                (w[0].label.plugin, w[0].label.index) < (w[1].label.plugin, w[1].label.index)
            );
        }
    }
    // the three identical names rank equal, so registration order survives
    let labels: Vec<(usize, usize)> = out.iter().map(|e| (e.label.plugin, e.label.index)).collect();
    assert_eq!(labels, vec![(0, 0), (0, 1), (1, 0)]);
}

#[test]
fn sort_entries_orders_by_rank_then_registration() {
    let mk = |plugin: usize, index: usize, rank: u16| Entry {
        name: String::new(),
        comment: None,
        icon: None,
        label: Label { plugin, index },
        rank,
        matched: Vec::new(),
    };
    let v = vec![mk(0, 0, 5), mk(0, 1, 9), mk(1, 0, 5), mk(2, 0, 7)];
    let out = sort_entries(v);
    let got: Vec<(u16, usize, usize)> =
        out.iter().map(|e| (e.rank, e.label.plugin, e.label.index)).collect();
    assert_eq!(got, vec![(9, 0, 1), (7, 2, 0), (5, 0, 0), (5, 1, 0)]);
}

#[test]
fn higher_ranked_name_comes_first() {
    let reg = Registry { plugins: vec![plugin("p", &["xxtermxx", "term"])] };
    let out = run_search(&reg, "p term");
    assert_eq!(out.len(), 2);
    // the exact, shorter name scores above the padded one
    assert_eq!(out[0].name, "term");
    assert!(out[0].rank > out[1].rank);
}

#[test]
fn scoring_is_deterministic() {
    let reg = registry();
    let a = run_search(&reg, "run fo");
    let b = run_search(&reg, "run fo");
    assert_eq!(a.len(), b.len());
    for (x, y) in a.iter().zip(b.iter()) {
        assert_eq!(x.name, y.name);
        assert_eq!(x.rank, y.rank);
        assert_eq!(x.matched, y.matched);
    }
}
