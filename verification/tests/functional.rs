use jchtools::functional::assign::{self, Named};
use jchtools::functional::candidates;
use jchtools::functional::cluster::{self, Edge, PairFacts};
use jchtools::functional::corpus::{self, Features, FuncFile};
use jchtools::functional::features::{IdSet, Interner};
use jchtools::functional::naming;
use jchtools::functional::pieces;
use std::collections::{BTreeMap, BTreeSet};

const EDGE_STRONG: f64 = 0.60;
const EDGE_MEDIUM: f64 = 0.18;
const STRONG_IDF: f64 = 4.0;
const ACRONYM_WEIGHT_FLOOR: f64 = 1.5;
const NAME_DICE_WEIGHT: f64 = 0.55;
const STRING_WEIGHT: f64 = 0.25;
const PARENT_WEIGHT: f64 = 0.20;
const SECOND_PHRASE_RATIO: f64 = 0.80;

fn idf(total: usize, frequency: u64) -> f64 {
    (1.0 + total as f64 / frequency.max(1) as f64).ln()
}

fn weighted_dice(a: &BTreeMap<usize, f64>, b: &BTreeMap<usize, f64>) -> f64 {
    let total: f64 = a.values().sum::<f64>() + b.values().sum::<f64>();
    if total <= 0.0 {
        return 0.0;
    }
    let shared: f64 = a
        .iter()
        .filter_map(|(key, value)| b.get(key).map(|other| value.min(*other)))
        .sum();
    2.0 * shared / total
}

struct Weights {
    name: BTreeMap<usize, f64>,
    parent: BTreeMap<usize, f64>,
}

/// What the weights are made of: how rare each token is, and which are acronyms.
struct Scale {
    token_idf: Vec<f64>,
    unit_idf: Vec<f64>,
    acronyms: BTreeSet<usize>,
    strong: Vec<bool>,
}

impl Scale {
    fn of(all: &[Features], tokens: &[Vec<usize>], units: &[Vec<usize>], parts: &[Vec<usize>]) -> Scale {
        let total = all.len();
        let mut acronyms = BTreeSet::new();
        for f in all {
            acronyms.extend(f.name.acronyms.items().iter().copied());
            acronyms.extend(f.parent.acronyms.items().iter().copied());
        }
        let token_idf: Vec<f64> = tokens.iter().map(|p| idf(total, p.len() as u64)).collect();
        let strong = token_idf
            .iter()
            .enumerate()
            .map(|(id, value)| acronyms.contains(&id) || *value >= STRONG_IDF)
            .collect();
        Scale {
            token_idf,
            unit_idf: units
                .iter()
                .zip(parts)
                .map(|(u, p)| idf(total, candidates::effective_frequency(u, p)))
                .collect(),
            acronyms,
            strong,
        }
    }

    fn weigh(&self, tokens: &IdSet, f: &Features) -> BTreeMap<usize, f64> {
        tokens
            .items()
            .iter()
            .map(|&id| {
                let mut weight = self.token_idf[id];
                if self.acronyms.contains(&id) {
                    weight = weight.max(ACRONYM_WEIGHT_FLOOR);
                }
                if f.name.acronyms.contains(id) || f.parent.acronyms.contains(id) {
                    weight *= 2.0;
                }
                (id, weight)
            })
            .collect()
    }
}

fn score_pair(a: usize, b: usize, all: &[Features], weights: &[Weights], scale: &Scale) -> Option<Edge> {
    let (fa, fb) = (&all[a].name.text, &all[b].name.text);
    let (wa, wb) = (&weights[a], &weights[b]);
    let similar = strsim::jaro_winkler(fa, fb).max(strsim::normalized_levenshtein(fa, fb));
    let parent_dice = weighted_dice(&wa.parent, &wb.parent);
    let score = NAME_DICE_WEIGHT * weighted_dice(&wa.name, &wb.name)
        + STRING_WEIGHT * similar
        + PARENT_WEIGHT * parent_dice;
    let shared: f64 = wa
        .name
        .iter()
        .filter_map(|(key, value)| wb.name.get(key).map(|other| value.min(*other)))
        .sum();
    let smaller = wa.name.values().sum::<f64>().min(wb.name.values().sum::<f64>());
    let coverage = if smaller > 0.0 { shared / smaller } else { 0.0 };
    let facts = PairFacts {
        at_strong: score >= EDGE_STRONG,
        at_medium: score >= EDGE_MEDIUM,
        strong_name: cluster::shares_strong(&all[a].name.tokens, &all[b].name.tokens, &scale.strong),
        half_name: coverage >= 0.5,
        strong_parent: cluster::shares_strong(
            &all[a].parent.tokens,
            &all[b].parent.tokens,
            &scale.strong,
        ),
        half_parent: parent_dice >= 0.5,
    };
    cluster::edge_of(a, b, score.to_bits(), facts)
}

fn name_group(
    all: &Vec<Features>,
    interner: &Interner,
    scale: &Scale,
    members: &Vec<usize>,
    use_parent: bool,
) -> Option<Named> {
    let phrases = naming::naming_phrases(all, members, use_parent);
    let scores: Vec<f64> = phrases
        .iter()
        .map(|p| {
            p.units
                .iter()
                .map(|&id| {
                    let boosted =
                        pieces::is_ascii_word(interner.text(id)) && scale.acronyms.contains(&id);
                    scale.unit_idf[id] * if boosted { 2.0 } else { 1.0 }
                })
                .sum()
        })
        .collect();
    let best = scores.iter().copied().fold(0.0, f64::max);
    let ranks: Vec<u64> = scores.iter().map(|s| s.to_bits()).collect();
    let near: Vec<bool> = scores
        .iter()
        .map(|s| *s >= SECOND_PHRASE_RATIO * best)
        .collect();
    let choice = naming::choose_name(interner, &phrases, &ranks, &near)?;
    let units = naming::chosen_units(&phrases, &choice);
    Some(Named {
        score: scores[choice.top].to_bits(),
        name: choice.name,
        units,
    })
}

/// The functional directory of each file.
pub fn functional_dirs(files: &Vec<FuncFile>, incumbents: &BTreeSet<String>) -> Vec<(i64, String)> {
    let order = corpus::ordered(files);
    let (interner, all) = corpus::all_features(files, &order);
    let count = interner.len();
    let tokens = candidates::postings(&candidates::token_sets(&all), count);
    let units = candidates::postings(&candidates::unit_sets(&all), count);
    let parts = candidates::postings(&candidates::part_sets(&all), count);
    let scale = Scale::of(&all, &tokens, &units, &parts);
    let weights: Vec<Weights> = all
        .iter()
        .map(|f| Weights {
            name: scale.weigh(&f.name.tokens, f),
            parent: scale.weigh(&f.parent.tokens, f),
        })
        .collect();
    let pairs = candidates::candidates(&tokens, all.len());
    let edges: Vec<Edge> = pairs
        .iter()
        .filter_map(|&(a, b)| score_pair(a, b, &all, &weights, &scale))
        .collect();
    let linked = cluster::link(all.len(), &edges);
    let best = cluster::best_scores(&linked, &edges);
    let components = cluster::components(&linked);
    let confidences: Vec<u64> = components
        .iter()
        .map(|members| {
            let sum: f64 = members.iter().map(|&m| f64::from_bits(best[m])).sum();
            (sum / members.len() as f64).to_bits()
        })
        .collect();
    let by_name: Vec<Option<Named>> = components
        .iter()
        .map(|members| name_group(&all, &interner, &scale, members, false))
        .collect();
    let by_parent: Vec<Option<Named>> = components
        .iter()
        .map(|members| name_group(&all, &interner, &scale, members, true))
        .collect();
    let there: Vec<String> = incumbents.iter().cloned().collect();
    let groups = assign::form_groups(
        &components,
        &confidences,
        &by_name,
        &by_parent,
        &there,
        all.len(),
    );
    let rare: Vec<bool> = scale.unit_idf.iter().map(|v| *v >= STRONG_IDF).collect();
    assign::functional_dirs(files, &order, &all, &groups, &rare)
}

fn inputs(files: &[(&str, &str)]) -> Vec<FuncFile> {
    files
        .iter()
        .enumerate()
        .map(|(i, (name, parent))| FuncFile {
            id: i64::try_from(i).unwrap() + 1,
            rel: format!("{parent}/{name}"),
            name: name.to_string(),
            parent: parent.to_string(),
        })
        .collect()
}

fn run(files: &[(&str, &str)]) -> Vec<(i64, String)> {
    functional_dirs(&inputs(files), &BTreeSet::new())
}

fn with_incumbents(files: &[(&str, &str)], incumbents: &[&str]) -> Vec<(i64, String)> {
    let set: BTreeSet<String> = incumbents.iter().map(|s| s.to_string()).collect();
    functional_dirs(&inputs(files), &set)
}

fn dir_of(result: &[(i64, String)], id: i64) -> &str {
    result
        .iter()
        .find(|(key, _)| *key == id)
        .map_or("?", |(_, value)| value.as_str())
}

fn copy(f: &FuncFile) -> FuncFile {
    FuncFile {
        id: f.id,
        rel: f.rel.clone(),
        name: f.name.clone(),
        parent: f.parent.clone(),
    }
}

#[test]
fn mbist_pair_groups_together() {
    let result = run(&[
        ("05_10 SMS Mbist 介绍.docx", ""),
        ("05_22 Tessent_MBIST_RTL流程指导.docx", ""),
    ]);
    assert_eq!(dir_of(&result, 1), "MBIST");
    assert_eq!(dir_of(&result, 2), "MBIST");
}

#[test]
fn amba_family_groups_with_two_token_name() {
    let result = run(&[
        ("amba_apb_protocol_spec.pdf", ""),
        ("AAMBA3apb.pdf", ""),
        ("AMBA总线基础(2013)[1].pptx", ""),
        ("JTAG2APB案例.docx", ""),
    ]);
    for id in 1..=4 {
        assert_eq!(dir_of(&result, id), "AMBA_APB", "id={id}");
    }
}

#[test]
fn scan_prefix_does_not_merge() {
    let result = run(&[("scan_report.pdf", ""), ("scanner_driver.pdf", "")]);
    assert_eq!(dir_of(&result, 1), assign::FALLBACK_DIR);
    assert_eq!(dir_of(&result, 2), assign::FALLBACK_DIR);
}

#[test]
fn mixed_language_and_noise_still_group() {
    let noisy = run(&[
        ("MBIST介绍 (1).pdf", ""),
        ("MBIST介绍_final.pdf", ""),
        ("2026-05_MBIST介绍_v2.pdf", ""),
    ]);
    for id in 1..=3 {
        assert_eq!(dir_of(&noisy, id), "MBIST", "id={id}");
    }
    let mixed = run(&[
        ("Tessent_MBIST流程指导.pdf", ""),
        ("MBIST 测试介绍.docx", ""),
        ("mbist_rtl_flow.txt", ""),
    ]);
    for id in 1..=3 {
        assert_eq!(dir_of(&mixed, id), "MBIST", "id={id}");
    }
}

#[test]
fn coarse_grained_single_dir() {
    let result = run(&[
        ("Tessent_MBIST_RTL流程.pdf", ""),
        ("MBIST算法介绍.pdf", ""),
        ("MBIST Repair Guide.pdf", ""),
        ("MBIST仿真方法.docx", ""),
    ]);
    for id in 1..=4 {
        assert_eq!(dir_of(&result, id), "MBIST", "id={id}");
    }
}

#[test]
fn strong_parent_token_joins_uninformative_names() {
    let result = run(&[("intro.pdf", "MBIST"), ("flow.docx", "MBIST")]);
    assert_eq!(dir_of(&result, 1), "MBIST");
    assert_eq!(dir_of(&result, 2), "MBIST");
    let weak = run(&[("intro.pdf", "新建文件夹"), ("flow.docx", "新建文件夹")]);
    assert_eq!(dir_of(&weak, 1), assign::FALLBACK_DIR);
    assert_eq!(dir_of(&weak, 2), assign::FALLBACK_DIR);
}

#[test]
fn singletons_fall_back() {
    let result = run(&[("completely_unknown.pdf", ""), ("random_note.docx", "")]);
    assert_eq!(dir_of(&result, 1), assign::FALLBACK_DIR);
    assert_eq!(dir_of(&result, 2), assign::FALLBACK_DIR);
}

#[test]
fn cap_ten_functional_dirs() {
    let themes = [
        "MBIST",
        "ATPG",
        "SCAN",
        "AMBA_APB",
        "JTAG",
        "TESSENT",
        "DFT",
        "RTL",
        "PROTOCOL",
        "VERIFICATION",
        "LITHO",
        "PACKAGE",
    ];
    let mut files: Vec<(String, String)> = Vec::new();
    for (rank, theme) in themes.iter().enumerate() {
        let copies = 6 - (rank / 3);
        for n in 0..copies {
            files.push((format!("{theme}_guide_{n}.pdf"), String::new()));
        }
    }
    let litho_intro_id = i64::try_from(files.len()).unwrap() + 1;
    files.push(("LITHO_intro.pdf".to_string(), String::new()));
    let result = run(&files
        .iter()
        .map(|(a, b)| (a.as_str(), b.as_str()))
        .collect::<Vec<_>>());
    let mut dirs: BTreeSet<String> = result.iter().map(|(_, d)| d.clone()).collect();
    assert!(dirs.remove(assign::FALLBACK_DIR));
    assert!(dirs.len() <= assign::MAX_FUNCTIONAL_DIRS, "{dirs:?}");
    assert_eq!(dirs.len(), 10, "{dirs:?}");
    if dirs.contains("LITHO") {
        assert_eq!(dir_of(&result, litho_intro_id), "LITHO");
    } else {
        assert_eq!(dir_of(&result, litho_intro_id), assign::FALLBACK_DIR);
    }
}

#[test]
fn incumbents_win_ties_over_new_candidates() {
    let themes = [
        "MBIST", "ATPG", "SCAN", "AMBA_APB", "JTAG", "TESSENT", "DFT", "RTL", "PROTOCOL", "ZEBRA",
    ];
    let mut files: Vec<(String, String)> = Vec::new();
    for theme in themes {
        for n in 0..2 {
            files.push((format!("{theme}_guide_{n}.pdf"), String::new()));
        }
    }
    let themed_count = files.len();
    for n in 0..2 {
        files.push((format!("ALPHA_guide_{n}.pdf"), String::new()));
    }
    let borrowed: Vec<(&str, &str)> = files
        .iter()
        .map(|(a, b)| (a.as_str(), b.as_str()))
        .collect();
    let result = run(&borrowed);
    let mut fresh_dirs: BTreeSet<String> = result.iter().map(|(_, d)| d.clone()).collect();
    fresh_dirs.remove(assign::FALLBACK_DIR);
    assert_eq!(fresh_dirs.len(), 10, "{fresh_dirs:?}");
    let known = with_incumbents(&borrowed, &themes);
    let mut dirs: BTreeSet<String> = known.iter().map(|(_, d)| d.clone()).collect();
    dirs.remove(assign::FALLBACK_DIR);
    assert_eq!(dirs.len(), 10);
    assert!(dirs.contains("ZEBRA"), "{dirs:?}");
    assert!(!dirs.contains("ALPHA"));
    for (key, dir) in &known {
        if dir == assign::FALLBACK_DIR {
            assert!(*key > i64::try_from(themed_count).unwrap());
        }
    }
}

#[test]
fn input_order_does_not_change_result() {
    let mut files: Vec<FuncFile> = Vec::new();
    let mut id = 0i64;
    for theme in ["MBIST", "AMBA_APB", "SCAN", "ATPG", "JTAG", "DFT"] {
        for n in 0..3 {
            id += 1;
            files.push(FuncFile {
                id,
                rel: format!("dir{n}/{theme}_doc_{n}.pdf"),
                name: format!("{theme}_doc_{n}.pdf"),
                parent: format!("dir{n}"),
            });
        }
    }
    for n in 0..20 {
        id += 1;
        files.push(FuncFile {
            id,
            rel: format!("misc/杂项文件_{n}.txt"),
            name: format!("杂项文件_{n}.txt"),
            parent: "misc".to_string(),
        });
    }
    let mut baseline = functional_dirs(&files, &BTreeSet::new());
    baseline.sort_by_key(|(key, _)| *key);
    let mut shuffled: Vec<FuncFile> = files.iter().map(copy).collect();
    shuffled.reverse();
    let mut reversed = functional_dirs(&shuffled, &BTreeSet::new());
    reversed.sort_by_key(|(key, _)| *key);
    assert_eq!(baseline, reversed);
    let interleaved: Vec<FuncFile> = (0..files.len())
        .map(|i| copy(&files[(i * 7 + 3) % files.len()]))
        .collect();
    let mut mixed = functional_dirs(&interleaved, &BTreeSet::new());
    mixed.sort_by_key(|(key, _)| *key);
    assert_eq!(baseline, mixed);
}

#[test]
fn large_synthetic_set_completes_without_full_pairwise() {
    let mut files: Vec<FuncFile> = Vec::new();
    for i in 0..4000u32 {
        let (name, parent) = if i % 50 == 0 {
            (format!("common_note_{i}.txt"), "共享".to_string())
        } else {
            (format!("doc_{i}.txt"), format!("theme{}", i % 97))
        };
        files.push(FuncFile {
            id: i64::from(i),
            rel: format!("{parent}/{name}"),
            name,
            parent,
        });
    }
    let start = std::time::Instant::now();
    let result = functional_dirs(&files, &BTreeSet::new());
    let elapsed = start.elapsed();
    assert_eq!(result.len(), files.len());
    assert!(elapsed < std::time::Duration::from_secs(30), "{elapsed:?}");
}

#[test]
fn pieces_are_normalized_and_lowered() {
    // Full-width letters become ordinary ones before they are cut.
    let cut = pieces::pieces_of("ＭＢＩＳＴ介绍");
    let plain = pieces::pieces_of("MBIST介绍");
    assert_eq!(format!("{cut:?}"), format!("{plain:?}"));
    assert!(!cut.is_empty());
}

#[test]
fn words_are_cut_at_humps() {
    let run: Vec<char> = "AMBAapb".chars().collect();
    let cut = pieces::split_ascii_word(&run);
    let joined: String = cut.iter().map(|(s, _)| s.as_str()).collect();
    assert_eq!(joined.to_lowercase(), "ambaapb");
    assert!(pieces::is_cjk('测'));
    assert!(!pieces::is_cjk('a'));
}

#[test]
fn one_weak_edge_adds_one_file_only() {
    let edge = |a, b, score: f64, strong| Edge {
        a,
        b,
        score: score.to_bits(),
        strong,
    };
    // Two pairs, and a weak edge between them: they stay apart.
    let edges = vec![
        edge(0, 1, 0.9, true),
        edge(2, 3, 0.8, true),
        edge(1, 2, 0.3, false),
    ];
    let linked = cluster::link(5, &edges);
    let groups = cluster::components(&linked);
    assert_eq!(groups, vec![vec![0, 1], vec![2, 3], vec![4]]);
    assert_eq!(
        cluster::best_scores(&linked, &edges),
        vec![
            0.9f64.to_bits(),
            0.9f64.to_bits(),
            0.8f64.to_bits(),
            0.8f64.to_bits(),
            0
        ]
    );
    // A file of its own joins.
    let linked = cluster::link(3, &vec![edge(0, 1, 0.9, true), edge(1, 2, 0.3, false)]);
    assert_eq!(cluster::components(&linked), vec![vec![0, 1, 2]]);
}

#[test]
fn names_of_directories_are_short_and_legal() {
    assert_eq!(naming::NAME_UNIT_LIMIT, 24);
    assert_eq!(naming::legalize_derived("MBIST"), "MBIST");
    let reserved = naming::legalize_derived("CON");
    assert_eq!(reserved, "CON_");
    assert!(naming::contains_subsequence(&vec![1, 2, 3], &vec![2, 3]));
    assert!(!naming::contains_subsequence(&vec![1, 2, 3], &vec![1, 3]));
    assert!(!naming::contains_subsequence(&vec![1], &vec![]));
}

#[test]
fn frequent_tokens_make_no_pairs() {
    assert_eq!(candidates::pairs_needed(4), 6);
    // Token 0 is held by three of four files, token 1 by two.
    let posts = vec![vec![0, 1, 2], vec![1, 3], vec![2]];
    let cap = candidates::df_cap(4);
    let list = candidates::rare_first(&posts, cap);
    assert_eq!(list.first(), Some(&1));
    let pairs = candidates::candidates(&posts, 4);
    assert!(pairs.contains(&(1, 3)));
    assert!(pairs.iter().all(|(a, b)| a < b));
}

#[test]
fn edges_need_more_than_a_middling_score() {
    let facts = PairFacts {
        at_strong: false,
        at_medium: true,
        strong_name: false,
        half_name: false,
        strong_parent: true,
        half_parent: false,
    };
    assert!(cluster::edge_of(1, 2, 7, facts).is_none());
    let weak = cluster::edge_of(
        1,
        2,
        7,
        PairFacts {
            half_parent: true,
            ..facts
        },
    )
    .unwrap();
    assert_eq!((weak.a, weak.b, weak.score, weak.strong), (1, 2, 7, false));
    let below = PairFacts {
        at_medium: false,
        strong_name: true,
        ..facts
    };
    assert!(cluster::edge_of(1, 2, 7, below).is_none());
    let strong = PairFacts {
        at_strong: true,
        ..facts
    };
    assert!(cluster::edge_of(1, 2, 7, strong).unwrap().strong);
}

#[test]
fn only_named_parts_of_two_files_become_groups() {
    let named = |name: &str| {
        Some(Named {
            name: name.to_string(),
            score: 5,
            units: vec![3],
        })
    };
    let groups = assign::form_groups(
        &vec![vec![0, 2], vec![1], vec![3, 4], vec![5, 6]],
        &vec![9, 8, 7, 6],
        &vec![named("A"), named("B"), None, None],
        &vec![named("X"), None, named("C"), None],
        &vec!["C".to_string()],
        7,
    );
    assert_eq!(groups.len(), 2);
    assert_eq!((groups[0].name.as_str(), groups[0].incumbent), ("A", false));
    assert_eq!(groups[0].members, vec![0, 2]);
    assert_eq!((groups[1].name.as_str(), groups[1].incumbent), ("C", true));
    assert_eq!((groups[1].confidence, groups[1].phrase_score), (7, 5));
}

#[test]
fn every_directory_holds_two_files_and_can_be_made() {
    let result = run(&[
        ("AMBA AHB 总线规范.pdf", "总线"),
        ("AMBA AXI 总线规范.pdf", "总线"),
        ("MBIST 流程.docx", "测试"),
        ("MBIST 指导.docx", "测试"),
        ("随便.txt", ""),
    ]);
    for (_, dir) in &result {
        assert!(jchtools::fsutil::validate_component(dir).is_ok(), "{dir}");
        if dir != assign::FALLBACK_DIR {
            assert!(result.iter().filter(|(_, d)| d == dir).count() >= 2, "{dir}");
        }
    }
}
