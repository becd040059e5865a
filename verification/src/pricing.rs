//! Price lists and the choice of the price that applies.
//!
//! Prices are kept as the text of the price list.

use crate::text;
use crate::text::{split_text, text_contains, to_lower, trim_text};
use vstd::prelude::*;

verus! {

/// What a model costs, in USD for a million tokens.
pub struct PricingRule {
    pub model_name: String,
    pub input_price: String,
    pub cache_input_price: String,
    pub output_price: String,
}

/// What a pricing rule stands for.
pub struct RuleView {
    pub model_name: Seq<char>,
    pub input_price: Seq<char>,
    pub cache_input_price: Seq<char>,
    pub output_price: Seq<char>,
}

impl View for PricingRule {
    type V = RuleView;

    open spec fn view(&self) -> RuleView {
        RuleView {
            model_name: self.model_name@,
            input_price: self.input_price@,
            cache_input_price: self.cache_input_price@,
            output_price: self.output_price@,
        }
    }
}

/// What a sequence of pricing rules stands for.
pub open spec fn rules_view(s: Seq<PricingRule>) -> Seq<RuleView> {
    s.map_values(|r: PricingRule| r@)
}

/// A line of the price list.
pub struct PricingEntry {
    pub model_name: String,
    pub deployment_type: String,
    pub unit: String,
    pub input_price: String,
    pub cache_input_price: String,
    pub output_price: String,
    pub batch_api_price: String,
}

/// What a line of the price list stands for.
pub struct PricingEntryView {
    pub model_name: Seq<char>,
    pub deployment_type: Seq<char>,
    pub unit: Seq<char>,
    pub input_price: Seq<char>,
    pub cache_input_price: Seq<char>,
    pub output_price: Seq<char>,
    pub batch_api_price: Seq<char>,
}

impl View for PricingEntry {
    type V = PricingEntryView;

    open spec fn view(&self) -> PricingEntryView {
        PricingEntryView {
            model_name: self.model_name@,
            deployment_type: self.deployment_type@,
            unit: self.unit@,
            input_price: self.input_price@,
            cache_input_price: self.cache_input_price@,
            output_price: self.output_price@,
            batch_api_price: self.batch_api_price@,
        }
    }
}

/// What a price list stands for.
pub open spec fn price_list_view(s: Seq<PricingEntry>) -> Seq<PricingEntryView> {
    s.map_values(|e: PricingEntry| e@)
}

/// The field at place `i` of a line, without the white space around it.
pub open spec fn column(line: Seq<char>, i: int) -> Seq<char> {
    text::trimmed(text::pieces(line, ',')[i])
}

/// The rule in a line: none where the line has fewer than six fields.
pub open spec fn rule_in(line: Seq<char>) -> Option<RuleView> {
    if text::pieces(line, ',').len() >= 6 {
        Some(
            RuleView {
                model_name: column(line, 0),
                input_price: column(line, 3),
                cache_input_price: column(line, 4),
                output_price: column(line, 5),
            },
        )
    } else {
        None
    }
}

/// The rules in the first `n` lines, the first of which is a heading.
pub open spec fn rules_in(lines: Seq<Seq<char>>, n: nat) -> Seq<RuleView>
    decreases n,
{
    if n <= 1 {
        Seq::empty()
    } else {
        let before = rules_in(lines, (n - 1) as nat);
        match rule_in(lines[n - 1]) {
            Some(rule) => before.push(rule),
            None => before,
        }
    }
}

/// The rules that apply where the price list holds none.
pub open spec fn default_rules() -> Seq<RuleView> {
    seq![
        RuleView {
            model_name: "GPT-5.5"@,
            input_price: "5.0"@,
            cache_input_price: "0.50"@,
            output_price: "30.0"@,
        },
        RuleView {
            model_name: "GPT-5.4 (<272k)"@,
            input_price: "2.50"@,
            cache_input_price: "0.25"@,
            output_price: "15.0"@,
        },
        RuleView {
            model_name: "GPT-5.4 (>272k)"@,
            input_price: "5.0"@,
            cache_input_price: "0.50"@,
            output_price: "22.50"@,
        },
        RuleView {
            model_name: "GPT-5.4-mini"@,
            input_price: "0.75"@,
            cache_input_price: "0.08"@,
            output_price: "4.50"@,
        },
        RuleView {
            model_name: "GPT-5.3-Codex"@,
            input_price: "1.75"@,
            cache_input_price: "0.18"@,
            output_price: "14.0"@,
        },
    ]
}

/// The rules of a price list.
pub open spec fn rules_of(lines: Seq<Seq<char>>) -> Seq<RuleView> {
    if rules_in(lines, lines.len()).len() == 0 {
        default_rules()
    } else {
        rules_in(lines, lines.len())
    }
}

/// The entry in a line: none where the line has fewer than seven fields.
pub open spec fn entry_in(line: Seq<char>) -> Option<PricingEntryView> {
    if text::pieces(line, ',').len() >= 7 {
        Some(
            PricingEntryView {
                model_name: column(line, 0),
                deployment_type: column(line, 1),
                unit: column(line, 2),
                input_price: column(line, 3),
                cache_input_price: column(line, 4),
                output_price: column(line, 5),
                batch_api_price: column(line, 6),
            },
        )
    } else {
        None
    }
}

/// The entries in the first `n` lines, the first of which is a heading.
pub open spec fn entries_in(lines: Seq<Seq<char>>, n: nat) -> Seq<PricingEntryView>
    decreases n,
{
    if n <= 1 {
        Seq::empty()
    } else {
        let before = entries_in(lines, (n - 1) as nat);
        match entry_in(lines[n - 1]) {
            Some(entry) => before.push(entry),
            None => before,
        }
    }
}

/// The entry that shows a rule.
pub open spec fn entry_of_rule(rule: RuleView) -> PricingEntryView {
    PricingEntryView {
        model_name: rule.model_name,
        deployment_type: "Global"@,
        unit: "1M Tokens"@,
        input_price: rule.input_price,
        cache_input_price: rule.cache_input_price,
        output_price: rule.output_price,
        batch_api_price: "N/A"@,
    }
}

/// The price list to be shown: its entries, or else its rules.
pub open spec fn price_list(lines: Seq<Seq<char>>) -> Seq<PricingEntryView> {
    if entries_in(lines, lines.len()).len() == 0 {
        rules_of(lines).map_values(|r: RuleView| entry_of_rule(r))
    } else {
        entries_in(lines, lines.len())
    }
}

/// Reads the rule in a line.
fn read_rule(line: &str) -> (r: Option<PricingRule>)
    ensures
        r is Some <==> rule_in(line@) is Some,
        r matches Some(rule) ==> rule_in(line@) == Some(rule@),
{
    let parts = split_text(line, ',');
    assert(text::texts(parts@).len() == parts@.len());
    if parts.len() < 6 {
        return None;
    }
    assert forall|i: int| 0 <= i < parts@.len() implies #[trigger] parts@[i]@ == text::pieces(
        line@,
        ',',
    )[i] by {
        assert(text::texts(parts@)[i] == parts@[i]@);
    }
    Some(
        PricingRule {
            model_name: trim_text(parts[0].as_str()),
            input_price: trim_text(parts[3].as_str()),
            cache_input_price: trim_text(parts[4].as_str()),
            output_price: trim_text(parts[5].as_str()),
        },
    )
}

fn make_rule(name: &str, input: &str, cache: &str, output: &str) -> (r: PricingRule)
    ensures
        r@ == (RuleView {
            model_name: name@,
            input_price: input@,
            cache_input_price: cache@,
            output_price: output@,
        }),
{
    PricingRule {
        model_name: name.to_string(),
        input_price: input.to_string(),
        cache_input_price: cache.to_string(),
        output_price: output.to_string(),
    }
}

/// Reads the rules of a price list, given as its lines with the heading first.
pub fn load_pricing_rules(lines: &Vec<String>) -> (r: Vec<PricingRule>)
    ensures
        rules_view(r@) == rules_of(text::texts(lines@)),
        r@.len() > 0,
{
    let ghost all = text::texts(lines@);
    let mut rules: Vec<PricingRule> = Vec::new();
    assert(rules_view(rules@) =~= Seq::empty());
    let mut i: usize = 1;
    while i < lines.len()
        invariant
            1 <= i,
            i <= lines@.len() || lines@.len() == 0,
            all == text::texts(lines@),
            rules_view(rules@) == rules_in(all, if i <= lines@.len() { i as nat } else { 0 }),
        decreases lines@.len() - i,
    {
        let ghost before = rules_view(rules@);
        assert(all[i as int] == lines@[i as int]@);
        if let Some(rule) = read_rule(lines[i].as_str()) {
            rules.push(rule);
            assert(rules_view(rules@) =~= before.push(rule@));
        }
        i += 1;
    }
    assert(rules_view(rules@) == rules_in(all, all.len()));
    assert(rules_view(rules@).len() == rules@.len());
    if rules.len() == 0 {
        rules.push(make_rule("GPT-5.5", "5.0", "0.50", "30.0"));
        rules.push(make_rule("GPT-5.4 (<272k)", "2.50", "0.25", "15.0"));
        rules.push(make_rule("GPT-5.4 (>272k)", "5.0", "0.50", "22.50"));
        rules.push(make_rule("GPT-5.4-mini", "0.75", "0.08", "4.50"));
        rules.push(make_rule("GPT-5.3-Codex", "1.75", "0.18", "14.0"));
        assert(rules_view(rules@) =~= default_rules());
    }
    rules
}

/// Reads the entry in a line.
fn read_entry(line: &str) -> (r: Option<PricingEntry>)
    ensures
        r is Some <==> entry_in(line@) is Some,
        r matches Some(entry) ==> entry_in(line@) == Some(entry@),
{
    let parts = split_text(line, ',');
    assert(text::texts(parts@).len() == parts@.len());
    if parts.len() < 7 {
        return None;
    }
    assert forall|i: int| 0 <= i < parts@.len() implies #[trigger] parts@[i]@ == text::pieces(
        line@,
        ',',
    )[i] by {
        assert(text::texts(parts@)[i] == parts@[i]@);
    }
    Some(
        PricingEntry {
            model_name: trim_text(parts[0].as_str()),
            deployment_type: trim_text(parts[1].as_str()),
            unit: trim_text(parts[2].as_str()),
            input_price: trim_text(parts[3].as_str()),
            cache_input_price: trim_text(parts[4].as_str()),
            output_price: trim_text(parts[5].as_str()),
            batch_api_price: trim_text(parts[6].as_str()),
        },
    )
}

/// Reads the price list to be shown, given as its lines with the heading first.
pub fn get_pricing(lines: &Vec<String>) -> (r: Vec<PricingEntry>)
    ensures
        price_list_view(r@) == price_list(text::texts(lines@)),
{
    let ghost all = text::texts(lines@);
    let mut entries: Vec<PricingEntry> = Vec::new();
    assert(price_list_view(entries@) =~= Seq::empty());
    let mut i: usize = 1;
    while i < lines.len()
        invariant
            1 <= i,
            i <= lines@.len() || lines@.len() == 0,
            all == text::texts(lines@),
            price_list_view(entries@) == entries_in(
                all,
                if i <= lines@.len() { i as nat } else { 0 },
            ),
        decreases lines@.len() - i,
    {
        let ghost before = price_list_view(entries@);
        assert(all[i as int] == lines@[i as int]@);
        if let Some(entry) = read_entry(lines[i].as_str()) {
            entries.push(entry);
            assert(price_list_view(entries@) =~= before.push(entry@));
        }
        i += 1;
    }
    assert(price_list_view(entries@) == entries_in(all, all.len()));
    assert(price_list_view(entries@).len() == entries@.len());
    if entries.len() == 0 {
        let rules = load_pricing_rules(lines);
        let ghost shown = rules_of(all).map_values(|r: RuleView| entry_of_rule(r));
        let mut k: usize = 0;
        while k < rules.len()
            invariant
                k <= rules@.len(),
                rules_view(rules@) == rules_of(all),
                shown == rules_of(all).map_values(|r: RuleView| entry_of_rule(r)),
                entries@.len() == k,
                forall|j: int| 0 <= j < k ==> (#[trigger] entries@[j])@ == shown[j],
            decreases rules@.len() - k,
        {
            assert(rules_view(rules@)[k as int] == rules@[k as int]@);
            entries.push(
                PricingEntry {
                    model_name: rules[k].model_name.clone(),
                    deployment_type: "Global".to_string(),
                    unit: "1M Tokens".to_string(),
                    input_price: rules[k].input_price.clone(),
                    cache_input_price: rules[k].cache_input_price.clone(),
                    output_price: rules[k].output_price.clone(),
                    batch_api_price: "N/A".to_string(),
                },
            );
            k += 1;
        }
        assert(rules_view(rules@).len() == rules@.len());
        assert(price_list_view(entries@) =~= shown);
    }
    entries
}

/// The first of the first `n` names in which `part` occurs.
pub open spec fn first_with(names: Seq<Seq<char>>, part: Seq<char>, n: nat) -> Option<int>
    decreases n,
{
    if n == 0 {
        None
    } else if first_with(names, part, (n - 1) as nat) is Some {
        first_with(names, part, (n - 1) as nat)
    } else if text::contains_text(names[n - 1], part) {
        Some(n - 1)
    } else {
        None
    }
}

/// The most input tokens that a short context has.
pub const SHORT_CONTEXT: u64 = 272_000;

/// The rule that is made for a model, if any. `model` and `lowered` are in lower case.
pub open spec fn own_rule(
    names: Seq<Seq<char>>,
    lowered: Seq<Seq<char>>,
    model: Seq<char>,
    input_tokens: int,
) -> Option<int> {
    let n = names.len();
    if text::contains_text(model, "gpt-5.5"@) {
        first_with(lowered, "gpt-5.5"@, n)
    } else if text::contains_text(model, "gpt-5.4-mini"@) || text::contains_text(
        model,
        "gpt-5.4 mini"@,
    ) {
        first_with(lowered, "gpt-5.4-mini"@, n)
    } else if text::contains_text(model, "gpt-5.4"@) {
        let by_size = first_with(
            names,
            if input_tokens > SHORT_CONTEXT {
                ">272k"@
            } else {
                "<272k"@
            },
            n,
        );
        if by_size is Some {
            by_size
        } else {
            first_with(lowered, "gpt-5.4"@, n)
        }
    } else if text::contains_text(model, "gpt-5.3"@) {
        first_with(lowered, "gpt-5.3"@, n)
    } else {
        None
    }
}

/// The rule that applies to a model: its own, or else the one for `gpt-5.3`, or else the
/// last.
pub open spec fn chosen_rule(
    names: Seq<Seq<char>>,
    lowered: Seq<Seq<char>>,
    model: Seq<char>,
    input_tokens: int,
) -> int {
    match own_rule(names, lowered, model, input_tokens) {
        Some(i) => i,
        None => match first_with(lowered, "gpt-5.3"@, names.len()) {
            Some(i) => i,
            None => names.len() - 1,
        },
    }
}

fn find_with(names: &Vec<String>, part: &str) -> (r: Option<usize>)
    ensures
        r matches Some(i) ==> i < names@.len() && first_with(
            text::texts(names@),
            part@,
            names@.len(),
        ) == Some(i as int),
        r is None ==> first_with(text::texts(names@), part@, names@.len()) is None,
{
    let ghost all = text::texts(names@);
    let mut found: Option<usize> = None;
    let mut i: usize = 0;
    while i < names.len()
        invariant
            i <= names@.len(),
            all == text::texts(names@),
            match found {
                Some(k) => k < i && first_with(all, part@, i as nat) == Some(k as int),
                None => first_with(all, part@, i as nat) is None,
            },
        decreases names@.len() - i,
    {
        assert(all[i as int] == names@[i as int]@);
        if found.is_none() && text_contains(names[i].as_str(), part) {
            found = Some(i);
        }
        i += 1;
    }
    found
}

/// The place of the rule that applies to a model.
///
/// `model` is the name of the model in lower case; `names` are the names in the rules, and
/// `lowered` the same in lower case.
pub fn choose_rule(
    names: &Vec<String>,
    lowered: &Vec<String>,
    model: &str,
    uncached_input_tokens: u64,
    cache_read_tokens: u64,
) -> (r: usize)
    requires
        names@.len() > 0,
        lowered@.len() == names@.len(),
    ensures
        r < names@.len(),
        r == chosen_rule(
            text::texts(names@),
            text::texts(lowered@),
            model@,
            uncached_input_tokens + cache_read_tokens,
        ),
{
    let input_tokens: u128 = uncached_input_tokens as u128 + cache_read_tokens as u128;
    let own = if text_contains(model, "gpt-5.5") {
        find_with(lowered, "gpt-5.5")
    } else if text_contains(model, "gpt-5.4-mini") || text_contains(model, "gpt-5.4 mini") {
        find_with(lowered, "gpt-5.4-mini")
    } else if text_contains(model, "gpt-5.4") {
        let by_size = if input_tokens > SHORT_CONTEXT as u128 {
            find_with(names, ">272k")
        } else {
            find_with(names, "<272k")
        };
        if by_size.is_some() {
            by_size
        } else {
            find_with(lowered, "gpt-5.4")
        }
    } else if text_contains(model, "gpt-5.3") {
        find_with(lowered, "gpt-5.3")
    } else {
        None
    };
    match own {
        Some(i) => i,
        None => match find_with(lowered, "gpt-5.3") {
            Some(i) => i,
            None => names.len() - 1,
        },
    }
}

/// What is to be paid for: token counts and the place of the rule that applies to them.
#[derive(Clone, Copy, Debug, PartialEq, Eq)]
pub struct Bill {
    pub rule: usize,
    pub uncached_input_tokens: u64,
    pub output_tokens: u64,
    pub cache_read_tokens: u64,
}

/// The names in a sequence of rules.
pub open spec fn rule_names(rules: Seq<RuleView>) -> Seq<Seq<char>> {
    rules.map_values(|r: RuleView| r.model_name)
}

/// The bill for a use of a model.
pub open spec fn bill(
    rules: Seq<RuleView>,
    model_name: Seq<char>,
    uncached_input_tokens: u64,
    output_tokens: u64,
    cache_read_tokens: u64,
) -> Bill {
    Bill {
        rule: chosen_rule(
            rule_names(rules),
            rule_names(rules).map_values(|name: Seq<char>| text::lowercase(name)),
            text::lowercase(model_name),
            uncached_input_tokens + cache_read_tokens,
        ) as usize,
        uncached_input_tokens,
        output_tokens,
        cache_read_tokens,
    }
}

/// Draws up the bill for a use of a model.
pub fn bill_for(
    rules: &Vec<PricingRule>,
    model_name: &str,
    uncached_input_tokens: u64,
    output_tokens: u64,
    cache_read_tokens: u64,
) -> (r: Bill)
    requires
        rules@.len() > 0,
    ensures
        r == bill(
            rules_view(rules@),
            model_name@,
            uncached_input_tokens,
            output_tokens,
            cache_read_tokens,
        ),
        r.rule < rules@.len(),
{
    let ghost all = rule_names(rules_view(rules@));
    let ghost all_lowered = all.map_values(|name: Seq<char>| text::lowercase(name));
    let mut names: Vec<String> = Vec::new();
    let mut lowered: Vec<String> = Vec::new();
    let mut i: usize = 0;
    while i < rules.len()
        invariant
            i <= rules@.len(),
            all == rule_names(rules_view(rules@)),
            all_lowered == all.map_values(|name: Seq<char>| text::lowercase(name)),
            names@.len() == i,
            lowered@.len() == i,
            forall|j: int| 0 <= j < i ==> (#[trigger] names@[j])@ == all[j],
            forall|j: int| 0 <= j < i ==> (#[trigger] lowered@[j])@ == all_lowered[j],
        decreases rules@.len() - i,
    {
        assert(rules_view(rules@)[i as int] == rules@[i as int]@);
        names.push(rules[i].model_name.clone());
        lowered.push(to_lower(rules[i].model_name.as_str()));
        i += 1;
    }
    assert(text::texts(names@) =~= all);
    assert(text::texts(lowered@) =~= all_lowered);
    let model = to_lower(model_name);
    let rule: usize = choose_rule(
        &names,
        &lowered,
        model.as_str(),
        uncached_input_tokens,
        cache_read_tokens,
    );
    Bill { rule, uncached_input_tokens, output_tokens, cache_read_tokens }
}

/// The names before the first one in which `part` occurs do not have it, and that one does.
pub proof fn lemma_first_with(names: Seq<Seq<char>>, part: Seq<char>, n: nat)
    requires
        n <= names.len(),
    ensures
        match first_with(names, part, n) {
            Some(i) => {
                &&& 0 <= i < n
                &&& text::contains_text(names[i], part)
                &&& forall|j: int| 0 <= j < i ==> !text::contains_text(#[trigger] names[j], part)
            },
            None => forall|j: int|
                0 <= j < n ==> !text::contains_text(#[trigger] names[j], part),
        },
    decreases n,
{
    if n > 0 {
        lemma_first_with(names, part, (n - 1) as nat);
    }
}

/// A rule is found for every model, whatever the price list.
pub proof fn lemma_rule_always_found(
    names: Seq<Seq<char>>,
    lowered: Seq<Seq<char>>,
    model: Seq<char>,
    input_tokens: int,
)
    requires
        names.len() > 0,
        lowered.len() == names.len(),
    ensures
        0 <= chosen_rule(names, lowered, model, input_tokens) < names.len(),
{
    let n = names.len();
    lemma_first_with(lowered, "gpt-5.5"@, n);
    lemma_first_with(lowered, "gpt-5.4-mini"@, n);
    lemma_first_with(lowered, "gpt-5.4"@, n);
    lemma_first_with(lowered, "gpt-5.3"@, n);
    lemma_first_with(names, ">272k"@, n);
    lemma_first_with(names, "<272k"@, n);
}

} // verus!
