//! Which price applies, and how a price list is read.

use crate::pricing;
use crate::pricing::{PricingEntryView, RuleView};
use crate::text;
use vstd::prelude::*;

verus! {

/// The rule at place `i` is the first whose name, in lower case, has `part` in it.
pub open spec fn first_named(rules: Seq<RuleView>, part: Seq<char>, i: int) -> bool {
    &&& 0 <= i < rules.len()
    &&& text::contains_text(text::lowercase(rules[i].model_name), part)
    &&& forall|j: int|
        0 <= j < i ==> !text::contains_text(text::lowercase((#[trigger] rules[j]).model_name), part)
}

/// No rule has `part` in its name in lower case.
pub open spec fn none_named(rules: Seq<RuleView>, part: Seq<char>) -> bool {
    forall|j: int|
        0 <= j < rules.len() ==> !text::contains_text(
            text::lowercase((#[trigger] rules[j]).model_name),
            part,
        )
}

/// The rule at place `i` is the first whose name, as it is written, has `part` in it.
pub open spec fn first_written(rules: Seq<RuleView>, part: Seq<char>, i: int) -> bool {
    &&& 0 <= i < rules.len()
    &&& text::contains_text(rules[i].model_name, part)
    &&& forall|j: int|
        0 <= j < i ==> !text::contains_text((#[trigger] rules[j]).model_name, part)
}

/// No rule has `part` in its name as it is written.
pub open spec fn none_written(rules: Seq<RuleView>, part: Seq<char>) -> bool {
    forall|j: int|
        0 <= j < rules.len() ==> !text::contains_text((#[trigger] rules[j]).model_name, part)
}

/// The rule at place `i` stands in where a model has none: the first for `gpt-5.3`, or else
/// the last.
pub open spec fn stands_in(rules: Seq<RuleView>, i: int) -> bool {
    first_named(rules, "gpt-5.3"@, i) || (none_named(rules, "gpt-5.3"@) && i == rules.len() - 1)
}

/// The name of the model, in lower case, has `part` in it.
pub open spec fn is_a(model: Seq<char>, part: Seq<char>) -> bool {
    text::contains_text(text::lowercase(model), part)
}

/// The model is a mini model of `gpt-5.4`.
pub open spec fn is_mini(model: Seq<char>) -> bool {
    is_a(model, "gpt-5.4-mini"@) || is_a(model, "gpt-5.4 mini"@)
}

proof fn lemma_first(names: Seq<Seq<char>>, part: Seq<char>, i: int)
    requires
        0 <= i < names.len(),
        text::contains_text(names[i], part),
        forall|j: int| 0 <= j < i ==> !text::contains_text(#[trigger] names[j], part),
    ensures
        pricing::first_with(names, part, names.len()) == Some(i),
{
    pricing::lemma_first_with(names, part, names.len());
    assert(text::contains_text(names[i], part));
    let k = pricing::first_with(names, part, names.len())->0;
    if k < i {
        assert(!text::contains_text(names[k], part));
    }
}

spec fn names_of(rules: Seq<RuleView>) -> Seq<Seq<char>> {
    pricing::rule_names(rules)
}

spec fn lowered_of(rules: Seq<RuleView>) -> Seq<Seq<char>> {
    pricing::rule_names(rules).map_values(|name: Seq<char>| text::lowercase(name))
}

proof fn lemma_named(rules: Seq<RuleView>, part: Seq<char>)
    ensures
        forall|i: int| #[trigger]
            first_named(rules, part, i) ==> pricing::first_with(
                lowered_of(rules),
                part,
                rules.len(),
            ) == Some(i),
        none_named(rules, part) ==> pricing::first_with(lowered_of(rules), part, rules.len())
            is None,
        forall|i: int| #[trigger]
            first_written(rules, part, i) ==> pricing::first_with(
                names_of(rules),
                part,
                rules.len(),
            ) == Some(i),
        none_written(rules, part) ==> pricing::first_with(names_of(rules), part, rules.len())
            is None,
{
    let lowered = lowered_of(rules);
    let names = names_of(rules);
    assert forall|j: int| 0 <= j < rules.len() implies #[trigger] lowered[j] == text::lowercase(
        rules[j].model_name,
    ) && names[j] == rules[j].model_name by {}
    assert forall|i: int| #[trigger] first_named(rules, part, i) implies pricing::first_with(
        lowered,
        part,
        rules.len(),
    ) == Some(i) by {
        assert forall|j: int| 0 <= j < i implies !text::contains_text(#[trigger] lowered[j], part) by {
            assert(!text::contains_text(text::lowercase(rules[j].model_name), part));
        }
        assert(lowered[i] == text::lowercase(rules[i].model_name));
        lemma_first(lowered, part, i);
    }
    assert forall|i: int| #[trigger] first_written(rules, part, i) implies pricing::first_with(
        names,
        part,
        rules.len(),
    ) == Some(i) by {
        assert forall|j: int| 0 <= j < i implies !text::contains_text(#[trigger] names[j], part) by {
            assert(!text::contains_text(rules[j].model_name, part));
        }
        lemma_first(names, part, i);
    }
    pricing::lemma_first_with(lowered, part, rules.len());
    pricing::lemma_first_with(names, part, rules.len());
    if none_named(rules, part) && pricing::first_with(lowered, part, rules.len()) is Some {
        let k = pricing::first_with(lowered, part, rules.len())->0;
        assert(lowered[k] == text::lowercase(rules[k].model_name));
        assert(!text::contains_text(text::lowercase(rules[k].model_name), part));
    }
    if none_written(rules, part) && pricing::first_with(names, part, rules.len()) is Some {
        let k = pricing::first_with(names, part, rules.len())->0;
        assert(names[k] == rules[k].model_name);
        assert(!text::contains_text(rules[k].model_name, part));
    }
}

proof fn lemma_bill_rule(
    rules: Seq<RuleView>,
    model: Seq<char>,
    input: u64,
    output: u64,
    cache: u64,
)
    requires
        0 < rules.len() <= usize::MAX,
    ensures
        pricing::bill(rules, model, input, output, cache).rule == pricing::chosen_rule(
            names_of(rules),
            lowered_of(rules),
            text::lowercase(model),
            input + cache,
        ),
{
    pricing::lemma_rule_always_found(
        names_of(rules),
        lowered_of(rules),
        text::lowercase(model),
        input + cache,
    );
}

/// A bill is for the counts that it was asked for, and its rule is one of the rules.
pub proof fn lemma_bill_counts(
    rules: Seq<RuleView>,
    model: Seq<char>,
    input: u64,
    output: u64,
    cache: u64,
)
    requires
        0 < rules.len() <= usize::MAX,
    ensures
        pricing::bill(rules, model, input, output, cache).uncached_input_tokens == input,
        pricing::bill(rules, model, input, output, cache).output_tokens == output,
        pricing::bill(rules, model, input, output, cache).cache_read_tokens == cache,
        pricing::bill(rules, model, input, output, cache).rule < rules.len(),
{
    pricing::lemma_rule_always_found(
        names_of(rules),
        lowered_of(rules),
        text::lowercase(model),
        input + cache,
    );
}

/// A model of `gpt-5.5` has the first rule for it, or else the one that stands in.
pub proof fn lemma_newest_model(
    rules: Seq<RuleView>,
    model: Seq<char>,
    input: u64,
    output: u64,
    cache: u64,
    i: int,
)
    requires
        0 < rules.len() <= usize::MAX,
        is_a(model, "gpt-5.5"@),
        first_named(rules, "gpt-5.5"@, i) || (none_named(rules, "gpt-5.5"@) && stands_in(rules, i)),
    ensures
        pricing::bill(rules, model, input, output, cache).rule == i,
{
    lemma_bill_rule(rules, model, input, output, cache);
    lemma_named(rules, "gpt-5.5"@);
    lemma_named(rules, "gpt-5.3"@);
}

/// A mini model has the first rule for mini models, or else the one that stands in, whatever
/// its counts.
pub proof fn lemma_mini_model(
    rules: Seq<RuleView>,
    model: Seq<char>,
    input: u64,
    output: u64,
    cache: u64,
    i: int,
)
    requires
        0 < rules.len() <= usize::MAX,
        is_mini(model),
        !is_a(model, "gpt-5.5"@),
        first_named(rules, "gpt-5.4-mini"@, i) || (none_named(rules, "gpt-5.4-mini"@) && stands_in(
            rules,
            i,
        )),
    ensures
        pricing::bill(rules, model, input, output, cache).rule == i,
{
    lemma_bill_rule(rules, model, input, output, cache);
    lemma_named(rules, "gpt-5.4-mini"@);
    lemma_named(rules, "gpt-5.3"@);
}

/// Any other model of `gpt-5.4` has the first rule for its context, long above 272,000 input
/// tokens, cached ones included; or else the first for `gpt-5.4`; or else the one that stands
/// in.
pub proof fn lemma_model_by_context(
    rules: Seq<RuleView>,
    model: Seq<char>,
    input: u64,
    output: u64,
    cache: u64,
    i: int,
)
    requires
        0 < rules.len() <= usize::MAX,
        is_a(model, "gpt-5.4"@),
        !is_mini(model),
        !is_a(model, "gpt-5.5"@),
        ({
            let part = if input + cache > 272000 {
                ">272k"@
            } else {
                "<272k"@
            };
            ||| first_written(rules, part, i)
            ||| none_written(rules, part) && first_named(rules, "gpt-5.4"@, i)
            ||| none_written(rules, part) && none_named(rules, "gpt-5.4"@) && stands_in(rules, i)
        }),
    ensures
        pricing::bill(rules, model, input, output, cache).rule == i,
{
    lemma_bill_rule(rules, model, input, output, cache);
    lemma_named(rules, ">272k"@);
    lemma_named(rules, "<272k"@);
    lemma_named(rules, "gpt-5.4"@);
    lemma_named(rules, "gpt-5.3"@);
}

/// Every other model, `gpt-5.3` among them, has the rule that stands in.
pub proof fn lemma_other_model(
    rules: Seq<RuleView>,
    model: Seq<char>,
    input: u64,
    output: u64,
    cache: u64,
    i: int,
)
    requires
        0 < rules.len() <= usize::MAX,
        !is_a(model, "gpt-5.4"@),
        !is_mini(model),
        !is_a(model, "gpt-5.5"@),
        stands_in(rules, i),
    ensures
        pricing::bill(rules, model, input, output, cache).rule == i,
{
    lemma_bill_rule(rules, model, input, output, cache);
    lemma_named(rules, "gpt-5.3"@);
}

/// The rule depends on the counts only for a model of `gpt-5.4` that is neither a mini model
/// nor one of `gpt-5.5`, and there only on whether the context is long.
pub proof fn lemma_rule_by_context_alone(
    rules: Seq<RuleView>,
    model: Seq<char>,
    input: u64,
    output: u64,
    cache: u64,
    other_input: u64,
    other_output: u64,
    other_cache: u64,
)
    requires
        0 < rules.len() <= usize::MAX,
        !is_a(model, "gpt-5.4"@) || is_mini(model) || is_a(model, "gpt-5.5"@) || (input + cache
            > 272000 <==> other_input + other_cache > 272000),
    ensures
        pricing::bill(rules, model, input, output, cache).rule == pricing::bill(
            rules,
            model,
            other_input,
            other_output,
            other_cache,
        ).rule,
{
    lemma_bill_rule(rules, model, input, output, cache);
    lemma_bill_rule(rules, model, other_input, other_output, other_cache);
}

/// Fields with a separator between them.
pub open spec fn joined(fields: Seq<Seq<char>>, separator: char) -> Seq<char>
    decreases fields.len(),
{
    if fields.len() == 0 {
        Seq::empty()
    } else if fields.len() == 1 {
        fields[0]
    } else {
        joined(fields.drop_last(), separator).push(separator) + fields.last()
    }
}

proof fn lemma_pieces_not_empty(s: Seq<char>, separator: char)
    ensures
        text::pieces(s, separator).len() > 0,
    decreases s.len(),
{
    if s.len() > 0 {
        lemma_pieces_not_empty(s.drop_last(), separator);
    }
}

proof fn lemma_pieces_extended(s: Seq<char>, more: Seq<char>, separator: char)
    requires
        !more.contains(separator),
    ensures
        text::pieces(s + more, separator) == text::pieces(s, separator).drop_last().push(
            text::pieces(s, separator).last() + more,
        ),
    decreases more.len(),
{
    let before = text::pieces(s, separator);
    lemma_pieces_not_empty(s, separator);
    if more.len() == 0 {
        assert(s + more =~= s);
        assert(before.last() + more =~= before.last());
        assert(before.drop_last().push(before.last()) =~= before);
    } else {
        let rest = more.drop_last();
        assert(!rest.contains(separator)) by {
            if rest.contains(separator) {
                let i = rest.index_of(separator);
                assert(more[i] == separator);
            }
        }
        lemma_pieces_extended(s, rest, separator);
        assert((s + more).drop_last() =~= s + rest);
        assert((s + more).last() == more.last());
        assert(more[more.len() - 1] != separator);
        let now = before.drop_last().push(before.last() + rest);
        assert(now.drop_last() =~= before.drop_last());
        assert((before.last() + rest).push(more.last()) =~= before.last() + more);
    }
}

/// Fields without the separator in them are got back by splitting.
pub proof fn lemma_joined_split(fields: Seq<Seq<char>>, separator: char)
    requires
        fields.len() > 0,
        forall|i: int| 0 <= i < fields.len() ==> !(#[trigger] fields[i]).contains(separator),
    ensures
        text::pieces(joined(fields, separator), separator) == fields,
    decreases fields.len(),
{
    if fields.len() == 1 {
        assert(!fields[0].contains(separator));
        lemma_pieces_extended(Seq::empty(), fields[0], separator);
        assert(Seq::<char>::empty() + fields[0] =~= fields[0]);
        let none = text::pieces(Seq::empty(), separator);
        assert(none.drop_last().push(none.last() + fields[0]) =~= fields);
    } else {
        let rest = fields.drop_last();
        assert forall|i: int| 0 <= i < rest.len() implies !(#[trigger] rest[i]).contains(
            separator,
        ) by {
            assert(!fields[i].contains(separator));
        }
        lemma_joined_split(rest, separator);
        let start = joined(rest, separator).push(separator);
        assert(start.drop_last() =~= joined(rest, separator));
        assert(text::pieces(start, separator) == rest.push(Seq::empty()));
        assert(!fields[fields.len() - 1].contains(separator));
        lemma_pieces_extended(start, fields.last(), separator);
        assert(rest.push(Seq::empty()).drop_last() =~= rest);
        assert(Seq::<char>::empty() + fields.last() =~= fields.last());
        assert(rest.push(fields.last()) =~= fields);
    }
}

/// A text between white space is what is left when the white space is trimmed.
pub proof fn lemma_trimmed(before: Seq<char>, core: Seq<char>, after: Seq<char>)
    requires
        forall|i: int| 0 <= i < before.len() ==> text::is_white(#[trigger] before[i]),
        forall|i: int| 0 <= i < after.len() ==> text::is_white(#[trigger] after[i]),
        core.len() > 0,
        !text::is_white(core.first()),
        !text::is_white(core.last()),
    ensures
        text::trimmed(before + core + after) == core,
{
    lemma_trimmed_start(before, core + after);
    assert(before + core + after =~= before + (core + after));
    lemma_trimmed_end(core, after);
}

proof fn lemma_trimmed_start(before: Seq<char>, rest: Seq<char>)
    requires
        forall|i: int| 0 <= i < before.len() ==> text::is_white(#[trigger] before[i]),
        rest.len() > 0,
        !text::is_white(rest.first()),
    ensures
        text::trimmed_start(before + rest) == rest,
    decreases before.len(),
{
    if before.len() > 0 {
        assert(text::is_white(before[0]));
        assert((before + rest).first() == before[0]);
        assert((before + rest).drop_first() =~= before.drop_first() + rest);
        assert forall|i: int| 0 <= i < before.drop_first().len() implies text::is_white(
            #[trigger] before.drop_first()[i],
        ) by {
            assert(text::is_white(before[i + 1]));
        }
        lemma_trimmed_start(before.drop_first(), rest);
    } else {
        assert(before + rest =~= rest);
    }
}

proof fn lemma_trimmed_end(rest: Seq<char>, after: Seq<char>)
    requires
        forall|i: int| 0 <= i < after.len() ==> text::is_white(#[trigger] after[i]),
        rest.len() > 0,
        !text::is_white(rest.last()),
    ensures
        text::trimmed_end(rest + after) == rest,
    decreases after.len(),
{
    if after.len() > 0 {
        assert(text::is_white(after[after.len() - 1]));
        assert((rest + after).last() == after.last());
        assert((rest + after).drop_last() =~= rest + after.drop_last());
        assert forall|i: int| 0 <= i < after.drop_last().len() implies text::is_white(
            #[trigger] after.drop_last()[i],
        ) by {
            assert(text::is_white(after[i]));
        }
        lemma_trimmed_end(rest, after.drop_last());
    } else {
        assert(rest + after =~= rest);
    }
}

/// White space alone is trimmed to nothing.
pub proof fn lemma_white_trimmed(s: Seq<char>)
    requires
        forall|i: int| 0 <= i < s.len() ==> text::is_white(#[trigger] s[i]),
    ensures
        text::trimmed(s).len() == 0,
    decreases s.len(),
{
    if s.len() > 0 {
        assert(text::is_white(s[0]));
        assert forall|i: int| 0 <= i < s.drop_first().len() implies text::is_white(
            #[trigger] s.drop_first()[i],
        ) by {
            assert(text::is_white(s[i + 1]));
        }
        lemma_white_trimmed(s.drop_first());
    }
}

/// White space is what Unicode has under that property: among the ASCII characters the space
/// and those from the tabulator to the carriage return; beyond them the next line, the spaces
/// without a break, the spaces of a fixed width, and the line and paragraph separators.
pub proof fn lemma_white(c: char)
    ensures
        (c as u32) < 128 ==> (text::is_white(c) <==> c == ' ' || '\t' <= c <= '\r'),
        (c as u32) >= 128 ==> (text::is_white(c) <==> {
            ||| c == '\u{85}' || c == '\u{a0}' || c == '\u{202f}'
            ||| '\u{2000}' <= c <= '\u{200a}'
            ||| c == '\u{1680}' || c == '\u{205f}' || c == '\u{3000}'
            ||| c == '\u{2028}' || c == '\u{2029}'
        }),
{
}

/// A line of at least six fields holds a rule: the name is in the first field, the prices for
/// input, cached input and output in the fourth, fifth and sixth. A line of fewer holds none.
pub proof fn lemma_rule_read(fields: Seq<Seq<char>>)
    requires
        fields.len() > 0,
        forall|i: int| 0 <= i < fields.len() ==> !(#[trigger] fields[i]).contains(','),
    ensures
        fields.len() < 6 ==> pricing::rule_in(joined(fields, ',')) is None,
        fields.len() >= 6 ==> pricing::rule_in(joined(fields, ',')) == Some(
            RuleView {
                model_name: text::trimmed(fields[0]),
                input_price: text::trimmed(fields[3]),
                cache_input_price: text::trimmed(fields[4]),
                output_price: text::trimmed(fields[5]),
            },
        ),
{
    lemma_joined_split(fields, ',');
}

/// A line of at least seven fields holds an entry of the price list; a line of fewer holds
/// none.
pub proof fn lemma_entry_read(fields: Seq<Seq<char>>)
    requires
        fields.len() > 0,
        forall|i: int| 0 <= i < fields.len() ==> !(#[trigger] fields[i]).contains(','),
    ensures
        fields.len() < 7 ==> pricing::entry_in(joined(fields, ',')) is None,
        fields.len() >= 7 ==> pricing::entry_in(joined(fields, ',')) == Some(
            PricingEntryView {
                model_name: text::trimmed(fields[0]),
                deployment_type: text::trimmed(fields[1]),
                unit: text::trimmed(fields[2]),
                input_price: text::trimmed(fields[3]),
                cache_input_price: text::trimmed(fields[4]),
                output_price: text::trimmed(fields[5]),
                batch_api_price: text::trimmed(fields[6]),
            },
        ),
{
    lemma_joined_split(fields, ',');
}

/// The rules that the lines below a heading hold, one after the other.
pub open spec fn rules_below(lines: Seq<Seq<char>>) -> Seq<RuleView> {
    lines.filter_map(|line: Seq<char>| pricing::rule_in(line))
}

/// The entries that the lines below a heading hold, one after the other.
pub open spec fn entries_below(lines: Seq<Seq<char>>) -> Seq<PricingEntryView> {
    lines.filter_map(|line: Seq<char>| pricing::entry_in(line))
}

proof fn lemma_below(lines: Seq<Seq<char>>, n: nat)
    requires
        1 <= n <= lines.len(),
    ensures
        pricing::rules_in(lines, n) == rules_below(lines.subrange(1, n as int)),
        pricing::entries_in(lines, n) == entries_below(lines.subrange(1, n as int)),
    decreases n,
{
    reveal(Seq::filter_map);
    if n > 1 {
        lemma_below(lines, (n - 1) as nat);
        let part = lines.subrange(1, n as int);
        assert(part.drop_last() =~= lines.subrange(1, n - 1));
        assert(part.last() == lines[n - 1]);
        let rule = |line: Seq<char>| pricing::rule_in(line);
        let entry = |line: Seq<char>| pricing::entry_in(line);
        match pricing::rule_in(lines[n - 1]) {
            Some(r) => {
                assert(rules_below(part) =~= rules_below(part.drop_last()) + seq![r]);
                assert(pricing::rules_in(lines, n) =~= pricing::rules_in(lines, (n - 1) as nat)
                    + seq![r]);
            },
            None => {
                assert(rules_below(part) =~= rules_below(part.drop_last()));
            },
        }
        match pricing::entry_in(lines[n - 1]) {
            Some(r) => {
                assert(entries_below(part) =~= entries_below(part.drop_last()) + seq![r]);
                assert(pricing::entries_in(lines, n) =~= pricing::entries_in(lines, (n - 1) as nat)
                    + seq![r]);
            },
            None => {
                assert(entries_below(part) =~= entries_below(part.drop_last()));
            },
        }
    } else {
        assert(lines.subrange(1, 1) =~= Seq::empty());
    }
}

/// The rule charges these prices for a model.
pub open spec fn charges(
    rule: RuleView,
    model: Seq<char>,
    input: Seq<char>,
    cached: Seq<char>,
    output: Seq<char>,
) -> bool {
    &&& rule.model_name == model
    &&& rule.input_price == input
    &&& rule.cache_input_price == cached
    &&& rule.output_price == output
}

/// These are the five rules that apply where a price list has none: in dollars for a million
/// tokens of input, of cached input and of output.
pub open spec fn five_rules(rules: Seq<RuleView>) -> bool {
    &&& rules.len() == 5
    &&& charges(rules[0], "GPT-5.5"@, "5.0"@, "0.50"@, "30.0"@)
    &&& charges(rules[1], "GPT-5.4 (<272k)"@, "2.50"@, "0.25"@, "15.0"@)
    &&& charges(rules[2], "GPT-5.4 (>272k)"@, "5.0"@, "0.50"@, "22.50"@)
    &&& charges(rules[3], "GPT-5.4-mini"@, "0.75"@, "0.08"@, "4.50"@)
    &&& charges(rules[4], "GPT-5.3-Codex"@, "1.75"@, "0.18"@, "14.0"@)
}

/// The rules are those of the lines below the heading; where these hold none, the five that
/// apply by default.
pub proof fn lemma_rules_below_heading(lines: Seq<Seq<char>>)
    ensures
        lines.len() > 0 && rules_below(lines.skip(1)).len() > 0 ==> pricing::rules_of(lines)
            == rules_below(lines.skip(1)),
        lines.len() == 0 || rules_below(lines.skip(1)).len() == 0 ==> five_rules(
            pricing::rules_of(lines),
        ),
{
    if lines.len() > 0 {
        lemma_below(lines, lines.len());
        assert(lines.subrange(1, lines.len() as int) =~= lines.skip(1));
    }
}

/// The price list shows the entries of the lines below the heading; where these hold none, it
/// shows the rules.
pub proof fn lemma_list_below_heading(lines: Seq<Seq<char>>)
    ensures
        lines.len() > 0 && entries_below(lines.skip(1)).len() > 0 ==> pricing::price_list(lines)
            == entries_below(lines.skip(1)),
        lines.len() == 0 || entries_below(lines.skip(1)).len() == 0 ==> {
            &&& pricing::price_list(lines).len() == pricing::rules_of(lines).len()
            &&& forall|i: int|
                0 <= i < pricing::rules_of(lines).len() ==> #[trigger] pricing::price_list(lines)[i]
                    == (PricingEntryView {
                    model_name: pricing::rules_of(lines)[i].model_name,
                    deployment_type: "Global"@,
                    unit: "1M Tokens"@,
                    input_price: pricing::rules_of(lines)[i].input_price,
                    cache_input_price: pricing::rules_of(lines)[i].cache_input_price,
                    output_price: pricing::rules_of(lines)[i].output_price,
                    batch_api_price: "N/A"@,
                })
        },
{
    if lines.len() > 0 {
        lemma_below(lines, lines.len());
        assert(lines.subrange(1, lines.len() as int) =~= lines.skip(1));
    }
}

} // verus!
