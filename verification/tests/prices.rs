use codex_cli_token_insights::pricing::{
    bill_for, choose_rule, get_pricing, load_pricing_rules, PricingRule,
};
use codex_cli_token_insights::text::{split_text, text_contains, trim_text};

fn lines(texts: &[&str]) -> Vec<String> {
    texts.iter().map(|t| t.to_string()).collect()
}

fn rule_for(rules: &Vec<PricingRule>, model: &str, uncached: u64, cache: u64) -> String {
    let bill = bill_for(rules, model, uncached, 0, cache);
    rules[bill.rule].model_name.clone()
}

#[test]
fn rules_are_read_below_the_heading() {
    let rules = load_pricing_rules(&lines(&[
        "a,b,c,d,e,f,g",
        " GPT-5.5 , Global, 1M ,5.0, 0.5 ,30",
        "too,few,columns,1,2",
        "m,x,y,1,2,3,4,5",
    ]));
    assert_eq!(rules.len(), 2);
    assert_eq!(rules[0].model_name, "GPT-5.5");
    assert_eq!(rules[0].input_price, "5.0");
    assert_eq!(rules[0].cache_input_price, "0.5");
    assert_eq!(rules[0].output_price, "30");
    assert_eq!(rules[1].model_name, "m");
    assert_eq!(rules[1].output_price, "3");
}

#[test]
fn without_rules_there_are_defaults() {
    for text in [&[][..], &["GPT-5.5,a,b,1,2,3"][..], &["heading", "short"][..]] {
        let rules = load_pricing_rules(&lines(text));
        let names: Vec<&str> = rules.iter().map(|r| r.model_name.as_str()).collect();
        assert_eq!(
            names,
            vec![
                "GPT-5.5",
                "GPT-5.4 (<272k)",
                "GPT-5.4 (>272k)",
                "GPT-5.4-mini",
                "GPT-5.3-Codex"
            ]
        );
        let prices: Vec<(f64, f64, f64)> = rules
            .iter()
            .map(|r| {
                (
                    r.input_price.parse().unwrap(),
                    r.cache_input_price.parse().unwrap(),
                    r.output_price.parse().unwrap(),
                )
            })
            .collect();
        assert_eq!(
            prices,
            vec![
                (5.0, 0.50, 30.0),
                (2.50, 0.25, 15.0),
                (5.0, 0.50, 22.50),
                (0.75, 0.08, 4.50),
                (1.75, 0.18, 14.0)
            ]
        );
    }
}

#[test]
fn price_list_shows_lines_of_seven_columns() {
    let list = get_pricing(&lines(&["h", "m, Global ,u,1,2,3, 4 ,5", "n,x,y,1,2,3"]));
    assert_eq!(list.len(), 1);
    assert_eq!(list[0].model_name, "m");
    assert_eq!(list[0].deployment_type, "Global");
    assert_eq!(list[0].unit, "u");
    assert_eq!(list[0].input_price, "1");
    assert_eq!(list[0].cache_input_price, "2");
    assert_eq!(list[0].output_price, "3");
    assert_eq!(list[0].batch_api_price, "4");
}

#[test]
fn price_list_without_entries_shows_the_rules() {
    let list = get_pricing(&lines(&["h", "n,x,y,1,2,3"]));
    assert_eq!(list.len(), 1);
    assert_eq!(list[0].model_name, "n");
    assert_eq!(list[0].deployment_type, "Global");
    assert_eq!(list[0].unit, "1M Tokens");
    assert_eq!(list[0].output_price, "3");
    assert_eq!(list[0].batch_api_price, "N/A");
    assert_eq!(get_pricing(&vec![]).len(), 5);
}

#[test]
fn model_finds_its_rule() {
    let rules = load_pricing_rules(&vec![]);
    assert_eq!(rule_for(&rules, "GPT-5.5", 1, 1), "GPT-5.5");
    assert_eq!(rule_for(&rules, "azure/gpt-5.5-turbo", 1, 1), "GPT-5.5");
    assert_eq!(rule_for(&rules, "gpt-5.4-MINI", 1, 1), "GPT-5.4-mini");
    assert_eq!(rule_for(&rules, "gpt-5.4 mini", 1, 1), "GPT-5.4-mini");
    assert_eq!(rule_for(&rules, "gpt-5.3-codex", 1, 1), "GPT-5.3-Codex");
    assert_eq!(rule_for(&rules, "GPT-5.3", 1, 1), "GPT-5.3-Codex");
    assert_eq!(rule_for(&rules, "Unknown Model", 1, 1), "GPT-5.3-Codex");
    assert_eq!(rule_for(&rules, "", 1, 1), "GPT-5.3-Codex");
}

#[test]
fn long_contexts_have_their_own_rule() {
    let rules = load_pricing_rules(&vec![]);
    assert_eq!(rule_for(&rules, "gpt-5.4", 272_000, 0), "GPT-5.4 (<272k)");
    assert_eq!(rule_for(&rules, "gpt-5.4", 200_000, 72_000), "GPT-5.4 (<272k)");
    assert_eq!(rule_for(&rules, "gpt-5.4", 200_000, 72_001), "GPT-5.4 (>272k)");
    assert_eq!(rule_for(&rules, "gpt-5.4", u64::MAX, u64::MAX), "GPT-5.4 (>272k)");
}

#[test]
fn missing_rules_are_stood_in_for() {
    let plain = load_pricing_rules(&lines(&["h", "gpt-5.4,a,b,1,2,3", "last,a,b,1,2,3"]));
    assert_eq!(rule_for(&plain, "gpt-5.4", 1, 1), "gpt-5.4");
    assert_eq!(rule_for(&plain, "gpt-5.5", 1, 1), "last");
    let codex = load_pricing_rules(&lines(&["h", "GPT-5.3,a,b,1,2,3", "last,a,b,1,2,3"]));
    assert_eq!(rule_for(&codex, "gpt-5.5", 1, 1), "GPT-5.3");
    assert_eq!(rule_for(&codex, "gpt-5.4", 1, 1), "GPT-5.3");
}

#[test]
fn first_of_several_rules_is_taken() {
    let rules = load_pricing_rules(&lines(&[
        "h",
        "x gpt-5.5 a,a,b,1,2,3",
        "gpt-5.5,a,b,4,5,6",
    ]));
    assert_eq!(rule_for(&rules, "gpt-5.5", 1, 1), "x gpt-5.5 a");
}

#[test]
fn bill_keeps_the_counts() {
    let rules = load_pricing_rules(&vec![]);
    let bill = bill_for(&rules, "gpt-5.5", 1_000_000, 2_000, 30);
    assert_eq!(bill.rule, 0);
    assert_eq!(bill.uncached_input_tokens, 1_000_000);
    assert_eq!(bill.output_tokens, 2_000);
    assert_eq!(bill.cache_read_tokens, 30);
}

#[test]
fn rule_is_chosen_by_lowered_names() {
    let names = lines(&["GPT-5.3", "GPT-5.5"]);
    let lowered = lines(&["gpt-5.3", "gpt-5.5"]);
    assert_eq!(choose_rule(&names, &lowered, "gpt-5.5", 0, 0), 1);
    assert_eq!(choose_rule(&names, &names, "gpt-5.5", 0, 0), 1);
    assert_eq!(choose_rule(&names, &lowered, "GPT-5.5", 0, 0), 0);
}

#[test]
fn texts_are_split_and_trimmed() {
    assert_eq!(split_text("a,,b,", ','), lines(&["a", "", "b", ""]));
    assert_eq!(split_text("", ','), lines(&[""]));
    assert_eq!(trim_text(" \t a b\u{3000}\n"), "a b");
    assert_eq!(trim_text("   "), "");
    assert!(text_contains("abc", ""));
    assert!(text_contains("abc", "bc"));
    assert!(!text_contains("ab", "abc"));
}
