use pwscan::extract::{classify, extract, Outcome};
use pwscan::merge::merge_all;
use pwscan::pattern::Pattern;
use pwscan::rank::rank;
use pwscan::rules::{CompiledRules, ConfigError, Configuration, RuleSet};
use pwscan::scan::{is_eligible, record_line, run, scan, tally, SourceFile};
use pwscan::table::FreqTable;

fn rule(pattern: &str, unwanted: &[&str], min_length: usize) -> RuleSet {
    RuleSet {
        pattern: pattern.to_string(),
        unwanted_strings: unwanted.iter().map(|s| s.to_string()).collect(),
        min_length,
    }
}

fn lines(ls: &[&str]) -> Vec<String> {
    ls.iter().map(|s| s.to_string()).collect()
}

fn default_rules() -> RuleSet {
    rule(r"password=(\S+)", &["^admin$"], 4)
}

fn table_of(pairs: &[(&str, u64)]) -> FreqTable {
    let mut t = FreqTable::new();
    for (k, n) in pairs {
        t.add(k.to_string(), *n);
    }
    t
}

#[test]
fn scenario_single_file_filters() {
    let rules = CompiledRules::compile(&default_rules()).unwrap();
    let t = tally(
        &lines(&["password=admin", "password=hunter2", "password=abc", "password=hunter2"]),
        &rules,
    );
    assert_eq!(t.len(), 1);
    assert_eq!(t.get("hunter2"), 2);
    assert_eq!(t.get("admin"), 0);
    assert_eq!(t.get("abc"), 0);
    assert_eq!(t.total(), 2);
}

#[test]
fn scenario_two_tables_merge_and_rank() {
    let a = table_of(&[("hunter2", 2)]);
    let b = table_of(&[("hunter2", 1), ("letmein", 3)]);
    let g = merge_all(&vec![a, b]);
    assert_eq!(g.get("hunter2"), 3);
    assert_eq!(g.get("letmein"), 3);
    assert_eq!(g.len(), 2);
    let r = rank(&g);
    assert_eq!(r.len(), 2);
    assert!(r.contains(&("hunter2".to_string(), 3)));
    assert!(r.contains(&("letmein".to_string(), 3)));
}

#[test]
fn merge_order_does_not_matter() {
    let a = table_of(&[("x", 2), ("y", 1)]);
    let b = table_of(&[("y", 4), ("z", 3)]);
    let c = table_of(&[("x", 1)]);
    let g1 = merge_all(&vec![a.clone(), b.clone(), c.clone()]);
    let g2 = merge_all(&vec![c, a, b]);
    for k in ["x", "y", "z", "w"] {
        assert_eq!(g1.get(k), g2.get(k));
    }
    assert_eq!(g1.get("x"), 3);
    assert_eq!(g1.get("y"), 5);
    assert_eq!(g1.get("z"), 3);
}

#[test]
fn merge_from_adds_counts() {
    let mut g = table_of(&[("a", 1)]);
    let l = table_of(&[("a", 2), ("b", 5)]);
    g.merge_from(&l);
    assert_eq!(g.get("a"), 3);
    assert_eq!(g.get("b"), 5);
    assert_eq!(g.total(), 8);
}

#[test]
fn rank_orders_by_descending_count() {
    let t = table_of(&[("one", 1), ("five", 5), ("three", 3), ("four", 4)]);
    let r = rank(&t);
    let counts: Vec<u64> = r.iter().map(|e| e.1).collect();
    assert_eq!(counts, vec![5, 4, 3, 1]);
    assert_eq!(r[0].0, "five");
    assert_eq!(r[3].0, "one");
}

#[test]
fn rank_of_empty_table_is_empty() {
    assert!(rank(&FreqTable::new()).is_empty());
}

#[test]
fn filtered_token_never_counted_even_if_long() {
    let rules = CompiledRules::compile(&rule(r"pw:(\w+)", &["secret"], 2)).unwrap();
    let t = tally(&lines(&["pw:topsecretvalue", "pw:topsecretvalue", "pw:ok"]), &rules);
    assert_eq!(t.get("topsecretvalue"), 0);
    assert_eq!(t.get("ok"), 1);
}

#[test]
fn short_token_never_counted_even_if_wanted() {
    let rules = CompiledRules::compile(&rule(r"pw:(\w+)", &[], 5)).unwrap();
    let t = tally(&lines(&["pw:abcd", "pw:abcde"]), &rules);
    assert_eq!(t.get("abcd"), 0);
    assert_eq!(t.get("abcde"), 1);
}

#[test]
fn min_length_counts_bytes() {
    let rules = CompiledRules::compile(&rule(r"pw:(\S+)", &[], 4)).unwrap();
    assert_eq!(extract("pw:éé", &rules), Some("éé".to_string()));
    assert_eq!(extract("pw:é", &rules), None);
}

#[test]
fn classify_reports_first_reason() {
    let rules = CompiledRules::compile(&default_rules()).unwrap();
    assert_eq!(classify("nothing here", &rules), Outcome::NoMatch);
    assert_eq!(classify("password=admin", &rules), Outcome::Unwanted("admin".to_string()));
    assert_eq!(classify("password=abc", &rules), Outcome::TooShort("abc".to_string()));
    assert_eq!(classify("x password=hunter2 y", &rules), Outcome::Accepted("hunter2".to_string()));
    let both = CompiledRules::compile(&rule(r"p=(\S+)", &["^a"], 10)).unwrap();
    assert_eq!(classify("p=ab", &both), Outcome::Unwanted("ab".to_string()));
}

#[test]
fn unwanted_patterns_checked_in_order() {
    let rules = CompiledRules::compile(&rule(r"p=(\S+)", &["^x$", "y", "^zz"], 1)).unwrap();
    assert_eq!(extract("p=x", &rules), None);
    assert_eq!(extract("p=ayb", &rules), None);
    assert_eq!(extract("p=zzz", &rules), None);
    assert_eq!(extract("p=xz", &rules), Some("xz".to_string()));
}

#[test]
fn optional_group_that_does_not_take_part_gives_nothing() {
    let rules = CompiledRules::compile(&rule(r"k(=(\w+))?", &[], 0)).unwrap();
    assert_eq!(extract("k", &rules), None);
    assert_eq!(extract("k=v1", &rules), Some("=v1".to_string()));
}

#[test]
fn pattern_wrappers_return_group_and_match() {
    let p = Pattern::new(r"id=(\d+);").unwrap();
    assert_eq!(p.as_str(), r"id=(\d+);");
    assert_eq!(p.group_count(), 2);
    assert_eq!(p.first_group("xx id=42; yy"), Some("42".to_string()));
    assert_eq!(p.first_group("no id"), None);
    assert!(p.is_match("id=7;"));
    assert!(!p.is_match("id=;"));
    assert_eq!(Pattern::new("plain").unwrap().group_count(), 1);
    assert!(Pattern::new("(unclosed").is_none());
}

#[test]
fn compile_rejects_bad_patterns() {
    assert_eq!(
        CompiledRules::compile(&rule("(oops", &[], 1)).err(),
        Some(ConfigError::InvalidPattern("(oops".to_string()))
    );
    assert_eq!(
        CompiledRules::compile(&rule("nogroup", &[], 1)).err(),
        Some(ConfigError::NoCaptureGroup("nogroup".to_string()))
    );
    assert_eq!(
        CompiledRules::compile(&rule("(ok)", &["fine", "[bad", "(worse"], 1)).err(),
        Some(ConfigError::InvalidPattern("[bad".to_string()))
    );
    let c = CompiledRules::compile(&rule("(ok)", &["fine"], 3)).unwrap();
    assert_eq!(c.min_length(), 3);
    assert_eq!(c.unwanted().len(), 1);
    assert_eq!(c.pattern().as_str(), "(ok)");
}

#[test]
fn configuration_compile_checks_default_then_overrides() {
    let cfg = Configuration {
        default: rule("(a)", &[], 1),
        files: vec![
            ("x.txt".to_string(), rule("(b)", &[], 1)),
            ("y.txt".to_string(), rule("none", &[], 1)),
            ("z.txt".to_string(), rule("(", &[], 1)),
        ],
    };
    assert_eq!(cfg.compile().err(), Some(ConfigError::NoCaptureGroup("none".to_string())));
    let bad_default = Configuration { default: rule("[", &[], 1), files: cfg.files.clone() };
    assert_eq!(bad_default.compile().err(), Some(ConfigError::InvalidPattern("[".to_string())));
}

#[test]
fn resolve_uses_override_or_default() {
    let cfg = Configuration {
        default: rule(r"d=(\S+)", &[], 1),
        files: vec![("special.txt".to_string(), rule(r"s=(\S+)", &["^q"], 2))],
    };
    assert_eq!(cfg.resolve("special.txt").pattern, r"s=(\S+)");
    assert_eq!(cfg.resolve("other.txt").pattern, r"d=(\S+)");
    assert_eq!(cfg.resolve("dir/special.txt").pattern, r"d=(\S+)");
    let c = cfg.compile().unwrap();
    assert_eq!(c.resolve("special.txt").min_length(), 2);
    assert_eq!(c.resolve("other.txt").pattern().as_str(), r"d=(\S+)");
}

#[test]
fn override_is_never_blended_with_default() {
    let cfg = Configuration {
        default: rule(r"d=(\S+)", &["^bad$"], 1),
        files: vec![("o.txt".to_string(), rule(r"s=(\S+)", &[], 1))],
    };
    let files = vec![SourceFile { name: "o.txt".to_string(), lines: lines(&["d=one", "s=bad", "s=two"]) }];
    let (t, _) = run(&cfg, &files).unwrap();
    assert_eq!(t.get("one"), 0);
    assert_eq!(t.get("bad"), 1);
    assert_eq!(t.get("two"), 1);
}

#[test]
fn eligible_extensions() {
    assert!(is_eligible("a.txt"));
    assert!(is_eligible("b.csv"));
    assert!(is_eligible("x.tar.txt"));
    assert!(is_eligible("..txt"));
    assert!(!is_eligible(".txt"));
    assert!(!is_eligible("a.log"));
    assert!(!is_eligible("a.TXT"));
    assert!(!is_eligible("txt"));
    assert!(!is_eligible("a.txt.bak"));
    assert!(!is_eligible(""));
}

#[test]
fn ineligible_files_contribute_nothing() {
    let cfg = Configuration { default: default_rules(), files: vec![] };
    let files = vec![
        SourceFile { name: "a.txt".to_string(), lines: lines(&["password=hunter2"]) },
        SourceFile { name: "b.log".to_string(), lines: lines(&["password=hunter2", "password=letmein"]) },
        SourceFile { name: "c.csv".to_string(), lines: lines(&["password=hunter2"]) },
    ];
    let c = cfg.compile().unwrap();
    let t = scan(&c, &files);
    assert_eq!(t.get("hunter2"), 2);
    assert_eq!(t.get("letmein"), 0);
}

#[test]
fn global_count_is_sum_over_files() {
    let cfg = Configuration {
        default: default_rules(),
        files: vec![("b.txt".to_string(), rule(r"pw:(\S+)", &[], 1))],
    };
    let files = vec![
        SourceFile { name: "a.txt".to_string(), lines: lines(&["password=hunter2", "pw:hunter2", "password=hunter2"]) },
        SourceFile { name: "b.txt".to_string(), lines: lines(&["pw:hunter2", "password=hunter2", "pw:x"]) },
    ];
    let (t, ranked) = run(&cfg, &files).unwrap();
    assert_eq!(t.get("hunter2"), 3);
    assert_eq!(t.get("x"), 1);
    assert_eq!(ranked, vec![("hunter2".to_string(), 3), ("x".to_string(), 1)]);
}

#[test]
fn running_twice_gives_same_result() {
    let cfg = Configuration { default: default_rules(), files: vec![] };
    let files = vec![
        SourceFile { name: "a.txt".to_string(), lines: lines(&["password=aaaa", "password=bbbb", "password=aaaa"]) },
        SourceFile { name: "b.txt".to_string(), lines: lines(&["password=cccc", "password=bbbb"]) },
    ];
    let (t1, r1) = run(&cfg, &files).unwrap();
    let (t2, r2) = run(&cfg, &files).unwrap();
    for k in ["aaaa", "bbbb", "cccc"] {
        assert_eq!(t1.get(k), t2.get(k));
    }
    assert_eq!(r1, r2);
}

#[test]
fn run_reports_config_error() {
    let cfg = Configuration { default: rule("no group", &[], 1), files: vec![] };
    assert_eq!(run(&cfg, &vec![]).err(), Some(ConfigError::NoCaptureGroup("no group".to_string())));
}

#[test]
fn record_line_counts_one_line() {
    let rules = CompiledRules::compile(&default_rules()).unwrap();
    let mut t = FreqTable::new();
    record_line(&mut t, "password=hunter2", &rules);
    record_line(&mut t, "password=abc", &rules);
    record_line(&mut t, "password=hunter2", &rules);
    assert_eq!(t.get("hunter2"), 2);
    assert_eq!(t.total(), 2);
    assert_eq!(t.entries(), &vec![("hunter2".to_string(), 2)]);
}
