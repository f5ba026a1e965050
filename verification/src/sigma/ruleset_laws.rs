//! What a rule document means, and which rules fire.
use super::detect::{compiled, formula_holds, plan_reads};
use super::pattern::Readings;
use super::ruleset::{
    dead_rules_never_match, fires, first_technique, hits_of, level_of, logsource_of, parsed_rule,
    raise_char, raised, rule_of, slug_char, slug_of, source_outcome, sourced_problems,
    sourced_rules, tag_technique, technique_of, trim_back_marks, trim_front_marks, unmapped_of, Hit,
    HitModel, Level, Reading, Rule, RuleModel, RuleSet,
};
use super::view::{category_known, event_fields, kind_category, mappable};
use super::yaml::{member, text_member, yaml_documents, Node};
use crate::likelihood::Likelihood;
use crate::model::event::TelemetryEvent;
use crate::text::{fold_char, folded, occurs_at, trimmed, white};
use vstd::prelude::*;

verus! {

/// A mapping stores under a name what its first pair of that name holds; what is no
/// mapping stores nothing.
pub proof fn members_are_first_pairs(
    key: Seq<char>,
    other: Seq<char>,
    value: Node,
    rest: Seq<(Node, Node)>,
    node: Node,
)
    ensures
        member(Node::Mapping(seq![(Node::Text(key), value)] + rest), key) == Some(value),
        other != key ==> member(Node::Mapping(seq![(Node::Text(other), value)] + rest), key)
            == member(Node::Mapping(rest), key),
        !(node is Text) ==> member(Node::Mapping(seq![(node, value)] + rest), key) == member(
            Node::Mapping(rest),
            key,
        ),
        member(Node::Mapping(seq![]), key) is None,
        !(node is Mapping) ==> member(node, key) is None,
        text_member(node, key) is Some <==> member(node, key) is Some && member(node, key)->0
            is Text,
        text_member(node, key) is Some ==> member(node, key) == Some(
            Node::Text(text_member(node, key)->0),
        ),
{
    assert((seq![(Node::Text(other), value)] + rest).drop_first() == rest);
    assert((seq![(node, value)] + rest).drop_first() == rest);
}

/// A level in any case and with any white space round it is that level; what names
/// none is informational.
pub proof fn levels_are_read_in_any_case(source: Seq<char>)
    ensures
        folded(trimmed(source)) == "critical"@ <==> level_of(source) == Level::Critical,
        folded(trimmed(source)) == "high"@ <==> level_of(source) == Level::High,
        folded(trimmed(source)) == "medium"@ <==> level_of(source) == Level::Medium,
        folded(trimmed(source)) == "low"@ <==> level_of(source) == Level::Low,
{
    reveal_strlit("critical");
    reveal_strlit("high");
    reveal_strlit("medium");
    reveal_strlit("low");
    assert("critical"@.len() == 8 && "high"@.len() == 4 && "medium"@.len() == 6 && "low"@.len()
        == 3);
}

/// The evidence each level stands for.
pub proof fn levels_weigh_what_they_say(level: Level)
    ensures
        level == Level::Critical ==> level.weight() == (Likelihood { hit: 9000, miss: 50 }),
        level == Level::High ==> level.weight() == (Likelihood { hit: 7500, miss: 100 }),
        level == Level::Medium ==> level.weight() == (Likelihood { hit: 5000, miss: 200 }),
        level == Level::Low ==> level.weight() == (Likelihood { hit: 3000, miss: 500 }),
        level == Level::Informational ==> level.weight() == (Likelihood { hit: 1500, miss: 1000 }),
        level.weight().hit > level.weight().miss,
{
}

proof fn lemma_raise_char(c: char)
    ensures
        'a' <= c <= 'z' ==> raise_char(c) as int == c as int - 32,
        !('a' <= c <= 'z') ==> raise_char(c) == c,
        raise_char(fold_char(c)) == raise_char(c),
{
}

/// A tag that names a technique, in any case, gives it with a capital T and nothing
/// else changed but small letters to capitals; a tag of anything else gives none, and
/// neither does what is no text.
pub proof fn tags_name_techniques(lead: Seq<char>, rest: Seq<char>, node: Node)
    requires
        folded(lead) == "attack.t"@,
    ensures
        tag_technique(Node::Text(lead + rest)) matches Some(t) && t.len() == rest.len() + 1 && t[0]
            == 'T' && forall|i: int|
            0 <= i < rest.len() ==> (#[trigger] t[i + 1]) as int == rest[i] as int - if 'a'
                <= rest[i] <= 'z' {
                32int
            } else {
                0int
            },
        !(node is Text) ==> tag_technique(node) is None,
        node is Text && !(exists|tail: Seq<char>|
            folded(node->Text_0) == #[trigger] ("attack.t"@ + tail)) ==> tag_technique(node)
            is None,
{
    reveal_strlit("attack.t");
    reveal_strlit("T");
    let tag = lead + rest;
    assert(folded(tag) == folded(lead) + folded(rest));
    assert(folded(lead).len() == lead.len());
    assert(folded(tag).subrange(0, 8) == "attack.t"@);
    assert(folded(tag).skip(8) == folded(rest));
    let t = raised("T"@ + folded(rest));
    assert forall|i: int| 0 <= i < rest.len() implies (#[trigger] t[i + 1]) as int == rest[i] as int
        - if 'a' <= rest[i] <= 'z' {
        32int
    } else {
        0int
    } by {
        assert(("T"@ + folded(rest))[i + 1] == folded(rest)[i]);
        lemma_raise_char(rest[i]);
    }
    lemma_raise_char('T');
    assert(t[0] == raise_char("T"@[0]));
    if node is Text && tag_technique(node) is Some {
        let s = folded(node->Text_0);
        assert(s == "attack.t"@ + s.skip(8)) by {
            assert(s.subrange(0, 8) == "attack.t"@);
            let joined = "attack.t"@ + s.skip(8);
            assert forall|i: int| 0 <= i < s.len() implies s[i] == joined[i] by {
                if i < 8 {
                    assert(s.subrange(0, 8)[i] == s[i]);
                }
            }
        }
    }
}

/// Of a rule's tags the first that names a technique counts; with none the technique
/// is the unknown one.
pub proof fn the_first_technique_counts(tags: Seq<Node>, tag: Node)
    ensures
        first_technique(seq![]) == "TA0000"@,
        tag_technique(tag) is Some ==> first_technique(seq![tag] + tags) == tag_technique(tag)->0,
        tag_technique(tag) is None ==> first_technique(seq![tag] + tags) == first_technique(tags),
{
    assert((seq![tag] + tags).drop_first() == tags);
}

proof fn lemma_slug_char(c: char)
    ensures
        'a' <= slug_char(c) <= 'z' || '0' <= slug_char(c) <= '9' || slug_char(c) == '_',
        'a' <= c <= 'z' || '0' <= c <= '9' ==> slug_char(c) == c,
        'A' <= c <= 'Z' ==> slug_char(c) as int == c as int + 32,
        !('a' <= c <= 'z' || '0' <= c <= '9' || 'A' <= c <= 'Z') ==> slug_char(c) == '_',
{
}

proof fn lemma_front_marks(s: Seq<char>)
    ensures
        exists|n: int|
            0 <= n <= s.len() && trim_front_marks(s) == #[trigger] s.skip(n) && (n < s.len() ==> s[n] != '_')
                && (forall|i: int| 0 <= i < n ==> #[trigger] s[i] == '_'),
    decreases s.len(),
{
    if s.len() > 0 && s[0] == '_' {
        let rest = s.drop_first();
        lemma_front_marks(rest);
        let n = choose|n: int|
            0 <= n <= rest.len() && trim_front_marks(rest) == #[trigger] rest.skip(n) && (n < rest.len()
                ==> rest[n] != '_') && (forall|i: int| 0 <= i < n ==> #[trigger] rest[i] == '_');
        assert(rest.skip(n) == s.skip(n + 1));
        assert forall|i: int| 0 <= i < n + 1 implies #[trigger] s[i] == '_' by {
            if i > 0 {
                assert(rest[i - 1] == s[i]);
            }
        }
        assert(trim_front_marks(s) == s.skip(n + 1));
    } else {
        assert(s.skip(0) == s);
    }
}

proof fn lemma_back_marks(s: Seq<char>)
    ensures
        exists|n: int|
            0 <= n <= s.len() && trim_back_marks(s) == #[trigger] s.take(n) && (n > 0 ==> s[n - 1] != '_') && (
            forall|i: int| n <= i < s.len() ==> #[trigger] s[i] == '_'),
    decreases s.len(),
{
    if s.len() > 0 && s.last() == '_' {
        let rest = s.drop_last();
        lemma_back_marks(rest);
        let n = choose|n: int|
            0 <= n <= rest.len() && trim_back_marks(rest) == #[trigger] rest.take(n) && (n > 0 ==> rest[n - 1]
                != '_') && (forall|i: int| n <= i < rest.len() ==> #[trigger] rest[i] == '_');
        assert(rest.take(n) == s.take(n));
        assert forall|i: int| n <= i < s.len() implies #[trigger] s[i] == '_' by {
            if i < rest.len() {
                assert(rest[i] == s[i]);
            }
        }
        assert(trim_back_marks(s) == s.take(n));
    } else {
        assert(s.take(s.len() as int) == s);
    }
}

/// An id made of a title holds small letters, digits and marks, neither begins nor
/// ends with a mark, and is the part of the title between its first and its last
/// letter or digit, each letter small and everything else a mark.
pub proof fn ids_are_made_of_titles(title: Seq<char>)
    ensures
        slug_of(title).len() > 0 ==> slug_of(title)[0] != '_' && slug_of(title).last() != '_',
        forall|i: int|
            0 <= i < slug_of(title).len() ==> {
                let c = #[trigger] slug_of(title)[i];
                'a' <= c <= 'z' || '0' <= c <= '9' || c == '_'
            },
        exists|from: int|
            #![trigger title.skip(from)]
            0 <= from && from + slug_of(title).len() <= title.len() && (forall|i: int|
                0 <= i < slug_of(title).len() ==> #[trigger] slug_of(title)[i] == slug_char(
                    title[from + i],
                )) && (forall|i: int|
                0 <= i < from || from + slug_of(title).len() <= i < title.len() ==> slug_char(
                    #[trigger] title[i],
                ) == '_'),
{
    let all = title.map_values(|c: char| slug_char(c));
    lemma_front_marks(all);
    let n = choose|n: int|
        0 <= n <= all.len() && trim_front_marks(all) == #[trigger] all.skip(n) && (n < all.len() ==> all[n]
            != '_') && (forall|i: int| 0 <= i < n ==> #[trigger] all[i] == '_');
    let inner = all.skip(n);
    lemma_back_marks(inner);
    let m = choose|m: int|
        0 <= m <= inner.len() && trim_back_marks(inner) == #[trigger] inner.take(m) && (m > 0 ==> inner[m - 1]
            != '_') && (forall|i: int| m <= i < inner.len() ==> #[trigger] inner[i] == '_');
    let id = slug_of(title);
    assert(id == inner.take(m));
    assert forall|i: int| 0 <= i < id.len() implies #[trigger] id[i] == slug_char(title[n + i]) by {
        lemma_slug_char(title[n + i]);
    }
    assert forall|i: int| 0 <= i < n || n + id.len() <= i < title.len() implies slug_char(
        #[trigger] title[i],
    ) == '_' by {
        if i < n {
            assert(all[i] == '_');
        } else {
            assert(inner[i - n] == '_');
        }
    }
    assert forall|i: int| 0 <= i < id.len() implies {
        let c = #[trigger] id[i];
        'a' <= c <= 'z' || '0' <= c <= '9' || c == '_'
    } by {
        lemma_slug_char(title[n + i]);
    }
    let _from = title.skip(n);
}

/// What each character of a title becomes.
pub proof fn ids_keep_letters_and_digits(c: char)
    ensures
        'a' <= c <= 'z' || '0' <= c <= '9' ==> slug_char(c) == c,
        'A' <= c <= 'Z' ==> slug_char(c) as int == c as int + 32,
        !('a' <= c <= 'z' || '0' <= c <= '9' || 'A' <= c <= 'Z') ==> slug_char(c) == '_',
{
    lemma_slug_char(c);
}

/// A rule is taken for Windows in any case, or for no product at all, and for a
/// category there are views of; another product, a service, no category or another
/// category is refused.
pub proof fn log_sources_are_windows_categories(node: Node)
    ensures
        ({
            let product = text_member(node, "product"@);
            let service = text_member(node, "service"@);
            let category = text_member(node, "category"@);
            let fits = (product is Some ==> folded(product->0) == "windows"@) && service is None
                && category is Some && category_known(category->0);
            &&& logsource_of(node) is Ok <==> fits
            &&& fits ==> logsource_of(node)->Ok_0 == (product, category->0)
        }),
{
    reveal_strlit("windows");
    assert(folded("windows"@) =~= "windows"@);
}

/// A document is a rule where it is a mapping with a title that is not blank, a log
/// source that can be matched and a detection that compiles; the rule is what the
/// document says, its id the one given or one made of the title, its level the one
/// given or informational.
pub proof fn rules_are_what_their_documents_say(document: Node)
    ensures
        ({
            let title = text_member(document, "title"@);
            let logsource = member(document, "logsource"@);
            let detection = member(document, "detection"@);
            let complete = document is Mapping && title is Some && trimmed(title->0).len() > 0
                && logsource is Some && logsource_of(logsource->0) is Ok && detection is Some
                && compiled(detection->0) is Ok;
            &&& rule_of(document) is Ok <==> complete
            &&& complete ==> {
                let rule = rule_of(document)->Ok_0;
                let id = text_member(document, "id"@);
                let level = text_member(document, "level"@);
                &&& rule.title == title->0
                &&& rule.id == (if id is Some {
                    id->0
                } else {
                    slug_of(title->0)
                })
                &&& rule.level == (if level is Some {
                    level_of(level->0)
                } else {
                    Level::Informational
                })
                &&& rule.technique == technique_of(document)
                &&& (rule.product, rule.category) == logsource_of(logsource->0)->Ok_0
                &&& rule.plan == compiled(detection->0)->Ok_0
            }
        }),
{
}

/// A source is its first document; one without a document, or that is no YAML, is no
/// rule.
pub proof fn sources_are_their_first_document(
    first: Node,
    rest: Seq<Node>,
    reason: Seq<char>,
)
    ensures
        parsed_rule(Ok(seq![first] + rest)) == rule_of(first),
        parsed_rule(Ok(seq![])) is Err,
        parsed_rule(Err(reason)) is Err,
{
}

/// One more source is one more rule, or one more problem under the source's name, and
/// leaves the others as they were.
pub proof fn each_source_adds_a_rule_or_a_problem(
    sources: Seq<(String, Reading)>,
    last: (String, Reading),
)
    ensures
        ({
            let n = sources.len();
            let more = sources.push(last);
            let rules = sourced_rules(sources, n);
            let problems = sourced_problems(sources, n);
            match last.1 {
                Ok(source) if parsed_rule(yaml_documents(source@)) is Ok => {
                    &&& sourced_rules(more, n + 1) == rules.push(
                        parsed_rule(yaml_documents(source@))->Ok_0,
                    )
                    &&& sourced_problems(more, n + 1) == problems
                },
                _ => {
                    &&& sourced_rules(more, n + 1) == rules
                    &&& sourced_problems(more, n + 1).len() == problems.len() + 1
                    &&& sourced_problems(more, n + 1).drop_last() == problems
                    &&& occurs_at(sourced_problems(more, n + 1).last(), last.0@ + ": "@, 0)
                },
            }
        }),
{
    let n = sources.len();
    let more = sources.push(last);
    lemma_sources_prefix(sources, last, n);
    assert(more[n as int] == last);
    match source_outcome(last.0@, last.1) {
        Ok(_) => {},
        Err(reason) => {
            assert(sourced_problems(more, n + 1) == sourced_problems(sources, n).push(reason));
            assert(sourced_problems(more, n + 1).drop_last() == sourced_problems(sources, n));
            reveal_strlit(": ");
            reveal_strlit(": cannot read: ");
            let lead = last.0@ + ": "@;
            assert(reason.subrange(0, lead.len() as int) == lead);
        },
    }
}

proof fn lemma_sources_prefix(
    sources: Seq<(String, Reading)>,
    last: (String, Reading),
    n: nat,
)
    requires
        n <= sources.len(),
    ensures
        sourced_rules(sources.push(last), n) == sourced_rules(sources, n),
        sourced_problems(sources.push(last), n) == sourced_problems(sources, n),
    decreases n,
{
    if n > 0 {
        lemma_sources_prefix(sources, last, (n - 1) as nat);
        assert(sources.push(last)[n - 1] == sources[n - 1]);
    }
}

/// A rule fires on an event of its category of which its condition holds, and on no
/// other; it reports its id, its title, its technique and the evidence of its level;
/// and one more rule takes nothing from the others.
pub proof fn rules_fire_on_events_of_their_category(
    rules: Seq<RuleModel>,
    last: RuleModel,
    event: TelemetryEvent,
    readings: Readings,
)
    ensures
        ({
            let n = rules.len();
            let front = hits_of(rules, n, event, readings);
            let holds = formula_holds(
                last.plan.selections,
                last.plan.condition,
                event_fields(event),
                readings,
            );
            hits_of(rules.push(last), n + 1, event, readings) == if kind_category(event.kind)
                == Some(last.category) && holds {
                front.push(
                    HitModel {
                        rule_id: last.id,
                        title: last.title,
                        technique: last.technique,
                        likelihood: last.level.weight(),
                        detail: "sigma: "@ + last.title,
                    },
                )
            } else {
                front
            }
        }),
        hits_of(seq![], 0, event, readings) == Seq::<HitModel>::empty(),
{
    lemma_hits_push(rules, last, rules.len(), event, readings);
    assert(rules.push(last)[rules.len() as int] == last);
}

proof fn lemma_hits_push(
    rules: Seq<RuleModel>,
    last: RuleModel,
    n: nat,
    event: TelemetryEvent,
    readings: Readings,
)
    requires
        n <= rules.len(),
    ensures
        hits_of(rules.push(last), n, event, readings) == hits_of(rules, n, event, readings),
    decreases n,
{
    if n > 0 {
        lemma_hits_push(rules, last, (n - 1) as nat, event, readings);
        assert(rules.push(last)[n - 1] == rules[n - 1]);
    }
}

/// The fields a rule reads in vain are those that no view of its category shows, each
/// of them listed once.
pub proof fn fields_read_in_vain_are_listed_once(
    category: Seq<char>,
    names: Seq<Seq<char>>,
    n: nat,
    name: Seq<char>,
)
    requires
        n <= names.len(),
    ensures
        unmapped_of(category, names, n).contains(name) <==> names.take(n as int).contains(name)
            && !mappable(category, name),
        unmapped_of(category, names, n).no_duplicates(),
    decreases n,
{
    let all = unmapped_of(category, names, n);
    if n > 0 {
        let m = (n - 1) as nat;
        fields_read_in_vain_are_listed_once(category, names, m, name);
        fields_read_in_vain_are_listed_once(category, names, m, names[n - 1]);
        let front = unmapped_of(category, names, m);
        let taken = names.take(n as int);
        assert(taken == names.take(m as int).push(names[n - 1]));
        assert(taken[n - 1] == names[n - 1]);
        if names.take(m as int).contains(name) {
            let i = choose|i: int| 0 <= i < m && names.take(m as int)[i] == name;
            assert(taken[i] == name);
        }
        if taken.contains(name) && name != names[n - 1] {
            let i = choose|i: int| 0 <= i < n && taken[i] == name;
            assert(names.take(m as int)[i] == name);
        }
        if front.contains(name) {
            let i = choose|i: int| 0 <= i < front.len() && front[i] == name;
            assert(all[i] == name);
        }
        if all.len() > front.len() {
            assert(all[front.len() as int] == names[n - 1]);
            assert forall|i: int, j: int| 0 <= i < j < all.len() implies all[i] != all[j] by {
                if j == front.len() {
                    assert(front.contains(front[i]));
                }
            }
            if all.contains(name) && name != names[n - 1] {
                let i = choose|i: int| 0 <= i < all.len() && all[i] == name;
                assert(front[i] == name);
            }
        }
    } else {
        assert(names.take(0).len() == 0);
    }
}

/// A rule and a hit stand for what they hold.
pub proof fn rules_and_hits_are_taken_at_their_word(rule: Rule, hit: Hit)
    ensures
        rule.model().id == rule.id@,
        rule.model().title == rule.title@,
        rule.model().level == rule.level,
        rule.model().technique == rule.technique@,
        rule.model().category == rule.logsource.category@,
        rule.model().product is Some <==> rule.logsource.product is Some,
        rule.logsource.product is Some ==> rule.model().product == Some(
            (rule.logsource.product->0)@,
        ),
        rule.model().plan == rule.detection.plan(),
        hit.model().rule_id == hit.rule_id@,
        hit.model().title == hit.title@,
        hit.model().technique == hit.technique@,
        hit.model().likelihood == hit.likelihood,
        hit.model().detail == hit.detail@,
{
}

/// A rule's title is found by its id: the first rule of that id has it, and none is
/// found where no rule has the id.
pub proof fn titles_are_found_by_id(models: Seq<RuleModel>, id: Seq<char>)
    ensures
        match RuleSet::titled(models, id) {
            Some(title) => exists|i: int|
                0 <= i < models.len() && (#[trigger] models[i]).id == id && models[i].title == title
                    && forall|j: int| 0 <= j < i ==> (#[trigger] models[j]).id != id,
            None => forall|j: int| 0 <= j < models.len() ==> (#[trigger] models[j]).id != id,
        },
    decreases models.len(),
{
    if models.len() > 0 && models[0].id != id {
        let rest = models.drop_first();
        titles_are_found_by_id(rest, id);
        match RuleSet::titled(rest, id) {
            Some(title) => {
                let k = choose|i: int|
                    0 <= i < rest.len() && (#[trigger] rest[i]).id == id && rest[i].title == title
                        && forall|j: int| 0 <= j < i ==> (#[trigger] rest[j]).id != id;
                assert(models[k + 1] == rest[k]);
                assert forall|j: int| 0 <= j < k + 1 implies (#[trigger] models[j]).id != id by {
                    if j > 0 {
                        assert(rest[j - 1] == models[j]);
                    }
                }
            },
            None => {
                assert forall|j: int| 0 <= j < models.len() implies (#[trigger] models[j]).id
                    != id by {
                    if j > 0 {
                        assert(rest[j - 1] == models[j]);
                    }
                }
            },
        }
    } else if models.len() > 0 {
        assert(models[0].id == id);
    }
}

/// A rule that is said to be unable to fire fires on no event, whatever the event
/// holds and however its texts read.
pub proof fn what_cannot_fire_never_does(
    model: RuleModel,
    event: TelemetryEvent,
    readings: Readings,
)
    requires
        RuleSet::dead(model),
    ensures
        !fires(model, event, readings),
{
    if kind_category(event.kind) == Some(model.category) {
        dead_rules_never_match(model.plan, event, readings);
    }
}

/// A rule lists exactly the fields that its detection reads and that no event of its
/// category shows, each once.
pub proof fn rules_list_what_they_read_in_vain(document: Node, name: Seq<char>)
    requires
        rule_of(document) is Ok,
    ensures
        ({
            let rule = rule_of(document)->Ok_0;
            let reads = plan_reads(rule.plan.selections, rule.plan.selections.len());
            &&& rule.unmapped.contains(name) <==> reads.contains(name) && !mappable(
                rule.category,
                name,
            )
            &&& rule.unmapped.no_duplicates()
        }),
{
    let rule = rule_of(document)->Ok_0;
    let reads = plan_reads(rule.plan.selections, rule.plan.selections.len());
    fields_read_in_vain_are_listed_once(rule.category, reads, reads.len(), name);
    assert(reads.take(reads.len() as int) == reads);
}

} // verus!
