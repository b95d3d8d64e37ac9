use lsystem_plant::grammar::GrammarError;
use lsystem_plant::grammar::Rule;
use lsystem_plant::grammar::RuleMap;
use lsystem_plant::grammar::create_rule_map;
use lsystem_plant::grammar::expand;
use lsystem_plant::grammar::expand_once;
use lsystem_plant::grammar::gen_sequence;

fn chars(s: &str) -> Vec<char> {
    s.chars().collect()
}

fn plant_rules() -> Vec<Rule> {
    vec![
        Rule { from: 'X', to: chars("F+[[X]-X]-F[-FX]+X") },
        Rule { from: 'F', to: chars("FF") },
    ]
}

#[test]
fn expand_is_deterministic() {
    let start = chars("+++X");
    let rules = plant_rules();
    let a = gen_sequence(&start, &rules, 4).unwrap();
    let b = gen_sequence(&start, &rules, 4).unwrap();
    assert_eq!(a, b);
}

#[test]
fn zero_generations_is_identity() {
    let start = chars("F-F+X");
    let rules = plant_rules();
    let out = gen_sequence(&start, &rules, 0).unwrap();
    assert_eq!(out, chars("F-F+X"));
}

#[test]
fn single_substitution() {
    let start = chars("X");
    let rules = vec![Rule { from: 'X', to: chars("F") }];
    let out = gen_sequence(&start, &rules, 1).unwrap();
    assert_eq!(out, chars("F"));
}

#[test]
fn multi_symbol_literal_pass_through() {
    let start = chars("+++X");
    let rules = plant_rules();
    let out = gen_sequence(&start, &rules, 0).unwrap();
    assert_eq!(out, chars("+++X"));
}

#[test]
fn one_generation_of_plant_rules() {
    let start = chars("X");
    let rules = plant_rules();
    let out = gen_sequence(&start, &rules, 1).unwrap();
    assert_eq!(out, chars("F+[[X]-X]-F[-FX]+X"));
}

#[test]
fn symbols_without_rules_pass_through_every_generation() {
    let start = chars("AB-");
    let rules = plant_rules();
    let out = gen_sequence(&start, &rules, 3).unwrap();
    assert_eq!(out, chars("AB-"));
}

#[test]
fn expand_once_single_pass() {
    let map = create_rule_map(&vec![Rule { from: 'F', to: chars("FF") }]);
    let out = expand_once(&chars("F+F"), &map);
    assert_eq!(out, chars("FF+FF"));
}

#[test]
fn later_rule_for_same_symbol_wins() {
    let rules = vec![
        Rule { from: 'X', to: chars("A") },
        Rule { from: 'X', to: chars("B") },
    ];
    let out = gen_sequence(&chars("X"), &rules, 1).unwrap();
    assert_eq!(out, chars("B"));
}

#[test]
fn cap_enforcement_refuses_oversized_expansion() {
    let mut map = RuleMap::new();
    map.insert('F', chars("FF"));
    // doubling per generation: 10 generations from one symbol projects past
    // a ceiling of 100 before the oversized generation is built
    let r = expand(&chars("F"), &map, 10, 100);
    assert_eq!(r, Err(GrammarError::SequenceTooLarge));
}

#[test]
fn cap_allows_expansion_that_stays_under_ceiling() {
    let mut map = RuleMap::new();
    map.insert('F', chars("FF"));
    let r = expand(&chars("F"), &map, 3, 100);
    assert_eq!(r.unwrap(), chars("FFFFFFFF"));
}

#[test]
fn growth_matches_doubling_rule() {
    let mut map = RuleMap::new();
    map.insert('F', chars("FF"));
    let mut cur = chars("F");
    for _ in 0..5 {
        cur = expand_once(&cur, &map);
    }
    assert_eq!(cur.len(), 32);
    assert!(cur.iter().all(|&c| c == 'F'));
}
