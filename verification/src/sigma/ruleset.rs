//! Rules and sets of rules.
use super::condition::CompileError;
use super::detect::{
    compile, compiled, formula_holds, formula_possible, plan_reads, str_views,
    what_holds_is_possible, within, Detection, Plan,
};
use super::pattern::Readings;
use super::view::{
    category_fields, category_known, category_of, event_fields, field_datum, field_is_mappable,
    is_category, kind_category, known_fields, mappable, universal,
    views_carry_only_mappable_fields, EventView, PRODUCT, CATEGORIES, UNIVERSAL_FIELDS,
};
use super::yaml::{member, nodes, text_member, yaml_documents, Node, Yaml};
use crate::likelihood::Likelihood;
use crate::model::event::TelemetryEvent;
use crate::model::kind::EventKind;
use crate::text::{
    chars_of, concat, concat3, concat5, copy_range, fold, fold_char, folded, folded_chars,
    listed, occurs_at, same, starts_with, text_of, trim, trimmed,
};
use vstd::prelude::*;

verus! {

/// SIGMA's `level`.
#[derive(Debug, Clone, Copy, PartialEq, Eq, PartialOrd, Ord, Structural)]
pub enum Level {
    Informational,
    Low,
    Medium,
    High,
    Critical,
}

/// The level a text names.
pub open spec fn level_of(source: Seq<char>) -> Level {
    let name = folded(trimmed(source));
    if name == "critical"@ {
        Level::Critical
    } else if name == "high"@ {
        Level::High
    } else if name == "medium"@ {
        Level::Medium
    } else if name == "low"@ {
        Level::Low
    } else {
        Level::Informational
    }
}

fn folded_text(chars: &[char]) -> (text: String)
    ensures
        text@ == folded(chars@),
{
    let mut out = String::new();
    let mut i: usize = 0;
    while i < chars.len()
        invariant
            i <= chars@.len(),
            out@ == folded(chars@).take(i as int),
        decreases chars@.len() - i,
    {
        out.push(fold(chars[i]));
        i += 1;
    }
    assert(folded(chars@).take(i as int) == folded(chars@));
    out
}

impl Level {
    /// Parses a rule's `level`. Unknown values are informational rather than an
    /// error: a rule whose level nobody can read is still a rule.
    pub fn parse(source: &str) -> (level: Level)
        ensures
            level == level_of(source@),
    {
        let name = folded_text(trim(chars_of(source).as_slice()).as_slice());
        if same(name.as_str(), "critical") {
            Level::Critical
        } else if same(name.as_str(), "high") {
            Level::High
        } else if same(name.as_str(), "medium") {
            Level::Medium
        } else if same(name.as_str(), "low") {
            Level::Low
        } else {
            Level::Informational
        }
    }

    pub fn as_str(self) -> (name: &'static str)
        ensures
            name@ == match self {
                Level::Informational => "informational"@,
                Level::Low => "low"@,
                Level::Medium => "medium"@,
                Level::High => "high"@,
                Level::Critical => "critical"@,
            },
    {
        match self {
            Level::Informational => "informational",
            Level::Low => "low",
            Level::Medium => "medium",
            Level::High => "high",
            Level::Critical => "critical",
        }
    }

    /// The likelihood a level is treated as, in ten-thousandths.
    pub open spec fn weight(self) -> Likelihood {
        match self {
            Level::Critical => Likelihood { hit: 9000, miss: 50 },
            Level::High => Likelihood { hit: 7500, miss: 100 },
            Level::Medium => Likelihood { hit: 5000, miss: 200 },
            Level::Low => Likelihood { hit: 3000, miss: 500 },
            Level::Informational => Likelihood { hit: 1500, miss: 1000 },
        }
    }

    /// The likelihood pair a level is treated as: a synthesis, not a
    /// measurement, chosen so that the ratios line up with the native rules'.
    pub fn likelihood(self) -> (pair: Likelihood)
        ensures
            pair == self.weight(),
    {
        match self {
            Level::Critical => Likelihood::new(9000, 50),
            Level::High => Likelihood::new(7500, 100),
            Level::Medium => Likelihood::new(5000, 200),
            Level::Low => Likelihood::new(3000, 500),
            Level::Informational => Likelihood::new(1500, 1000),
        }
    }

    /// Where a level stands in severity.
    pub open spec fn rank(self) -> int {
        match self {
            Level::Informational => 0,
            Level::Low => 1,
            Level::Medium => 2,
            Level::High => 3,
            Level::Critical => 4,
        }
    }
}

/// A more severe level is stronger evidence.
pub proof fn likelihood_grows_with_severity(a: Level, b: Level)
    requires
        a.rank() < b.rank(),
    ensures
        a.weight().weaker(&b.weight()),
{
    let x = a.weight();
    let y = b.weight();
    assert(x.hit * y.miss < y.hit * x.miss) by (nonlinear_arith)
        requires
            0 < x.hit < y.hit,
            0 < y.miss < x.miss,
    ;
}

/// A rule's `logsource`, restricted to what this engine can match.
#[derive(Debug, Clone, PartialEq, Eq)]
pub struct LogSource {
    pub product: Option<String>,
    pub category: String,
}

/// Why a rule did not load.
#[derive(Debug, Clone, PartialEq, Eq)]
pub struct LoadError(pub String);

/// One loaded rule.
#[derive(Debug, Clone)]
pub struct Rule {
    /// The rule's `id`, or a slug of its title when it has none.
    pub id: String,
    pub title: String,
    pub level: Level,
    /// A MITRE technique from `tags`, or `TA0000` when the rule names none.
    pub technique: String,
    pub logsource: LogSource,
    pub detection: Detection,
    /// Fields the rule reads that no view of its category produces, each once.
    pub unmapped_fields: Vec<String>,
}

/// A loaded rule, as mathematics.
pub struct RuleModel {
    pub id: Seq<char>,
    pub title: Seq<char>,
    pub level: Level,
    pub technique: Seq<char>,
    pub product: Option<Seq<char>>,
    pub category: Seq<char>,
    pub plan: Plan,
    pub unmapped: Seq<Seq<char>>,
}

/// The characters of an optional text.
pub open spec fn optional_view(text: Option<String>) -> Option<Seq<char>> {
    match text {
        Some(s) => Some(s@),
        None => None,
    }
}

impl Rule {
    pub open spec fn model(&self) -> RuleModel {
        RuleModel {
            id: self.id@,
            title: self.title@,
            level: self.level,
            technique: self.technique@,
            product: optional_view(self.logsource.product),
            category: self.logsource.category@,
            plan: self.detection.plan(),
            unmapped: self.unmapped_fields@.map_values(|s: String| s@),
        }
    }
}

/// Whether a character is an ASCII letter or digit.
pub open spec fn alphanumeric(c: char) -> bool {
    ||| 'a' <= c && c <= 'z'
    ||| 'A' <= c && c <= 'Z'
    ||| '0' <= c && c <= '9'
}

/// A character of a slug.
pub open spec fn slug_char(c: char) -> char {
    if alphanumeric(c) {
        fold_char(c)
    } else {
        '_'
    }
}

/// A text without the underscores it starts with.
pub open spec fn trim_front_marks(s: Seq<char>) -> Seq<char>
    decreases s.len(),
{
    if s.len() > 0 && s[0] == '_' {
        trim_front_marks(s.drop_first())
    } else {
        s
    }
}

/// A text without the underscores it ends with.
pub open spec fn trim_back_marks(s: Seq<char>) -> Seq<char>
    decreases s.len(),
{
    if s.len() > 0 && s.last() == '_' {
        trim_back_marks(s.drop_last())
    } else {
        s
    }
}

/// A stable, human-readable id from a title.
pub open spec fn slug_of(title: Seq<char>) -> Seq<char> {
    trim_back_marks(trim_front_marks(title.map_values(|c: char| slug_char(c))))
}

/// A stable, human-readable id from a title.
pub fn slug(title: &str) -> (id: String)
    ensures
        id@ == slug_of(title@),
{
    let mut marks: Vec<char> = Vec::new();
    let ghost all = title@.map_values(|c: char| slug_char(c));
    for c in it: title.chars()
        invariant
            all == title@.map_values(|c: char| slug_char(c)),
            marks@ == all.take(it.index() as int),
            it.seq() == title@,
    {
        let keep = ('a' <= c && c <= 'z') || ('A' <= c && c <= 'Z') || ('0' <= c && c <= '9');
        marks.push(if keep {
            fold(c)
        } else {
            '_'
        });
    }
    assert(marks@ == all);
    let mut from: usize = 0;
    assert(marks@.skip(0) == marks@);
    while from < marks.len() && marks[from] == '_'
        invariant
            from <= marks@.len(),
            trim_front_marks(marks@) == trim_front_marks(marks@.skip(from as int)),
        decreases marks@.len() - from,
    {
        assert(marks@.skip(from as int).drop_first() == marks@.skip(from + 1));
        from += 1;
    }
    let ghost head = marks@.skip(from as int);
    let mut to: usize = marks.len();
    assert(marks@.subrange(from as int, to as int) == head);
    while to > from && marks[to - 1] == '_'
        invariant
            from <= to <= marks@.len(),
            trim_back_marks(head) == trim_back_marks(marks@.subrange(from as int, to as int)),
        decreases to,
    {
        assert(marks@.subrange(from as int, to as int).drop_last() == marks@.subrange(
            from as int,
            to - 1,
        ));
        assert(marks@.subrange(from as int, to as int).last() == marks@[to - 1]);
        to -= 1;
    }
    assert(to > from ==> marks@.subrange(from as int, to as int).last() == marks@[to - 1]);
    text_of(copy_range(marks.as_slice(), from, to).as_slice())
}

/// A character with ASCII lowercase raised to uppercase.
pub open spec fn raise_char(c: char) -> char {
    if 'a' <= c && c <= 'z' {
        ((c as u8 - 32) as u8) as char
    } else {
        c
    }
}

/// A text with ASCII lowercase raised to uppercase.
pub open spec fn raised(s: Seq<char>) -> Seq<char> {
    s.map_values(|c: char| raise_char(c))
}

/// The technique a tag names: what follows `attack.t`.
pub open spec fn tag_technique(node: Node) -> Option<Seq<char>> {
    match node {
        Node::Text(tag) => if occurs_at(folded(tag), "attack.t"@, 0) {
            Some(raised("T"@ + folded(tag).skip(8)))
        } else {
            None
        },
        _ => None,
    }
}

/// The technique of the first tag that names one.
pub open spec fn first_technique(tags: Seq<Node>) -> Seq<char>
    decreases tags.len(),
{
    if tags.len() == 0 {
        "TA0000"@
    } else {
        match tag_technique(tags[0]) {
            Some(technique) => technique,
            None => first_technique(tags.drop_first()),
        }
    }
}

/// The technique a document's tags name, or `TA0000`.
pub open spec fn technique_of(document: Node) -> Seq<char> {
    match member(document, "tags"@) {
        Some(Node::Sequence(tags)) => first_technique(tags),
        _ => "TA0000"@,
    }
}

fn raise(c: char) -> (upper: char)
    ensures
        upper == raise_char(c),
{
    if 'a' <= c && c <= 'z' {
        (c as u8 - 32) as char
    } else {
        c
    }
}

fn technique_from_tag(tag: &str) -> (technique: Option<String>)
    ensures
        match technique {
            Some(t) => tag_technique(Node::Text(tag@)) == Some(t@),
            None => tag_technique(Node::Text(tag@)) is None,
        },
{
    let lower = folded_chars(tag);
    proof {
        reveal_strlit("attack.t");
        reveal_strlit("T");
    }
    if !starts_with(lower.as_slice(), chars_of("attack.t").as_slice()) {
        return None;
    }
    let ghost want = raised("T"@ + lower@.skip(8));
    let mut out = "T".to_string();
    let mut i: usize = 8;
    assert(out@ == want.take(1));
    while i < lower.len()
        invariant
            8 <= i <= lower@.len(),
            want == raised("T"@ + lower@.skip(8)),
            "T"@.len() == 1,
            out@ == want.take(i - 7),
        decreases lower@.len() - i,
    {
        out.push(raise(lower[i]));
        assert(("T"@ + lower@.skip(8))[i - 7] == lower@[i as int]);
        i += 1;
    }
    assert(want.take(i - 7) == want);
    Some(out)
}

/// The first `attack.tXXXX` tag, uppercased.
pub fn technique_from_tags(document: &Yaml) -> (technique: String)
    ensures
        technique@ == technique_of(document.node()),
{
    match document.get("tags") {
        Some(Yaml::Sequence(tags)) => {
            let ghost node = member(document.node(), "tags"@)->0;
            let ghost all = node->Sequence_0;
            let mut i: usize = 0;
            assert(all.skip(0) == all);
            while i < tags.len()
                invariant
                    i <= tags@.len(),
                    member(document.node(), "tags"@) == Some(Node::Sequence(all)),
                    all.len() == tags@.len(),
                    forall|k: int| 0 <= k < all.len() ==> #[trigger] all[k] == tags@[k].node(),
                    first_technique(all) == first_technique(all.skip(i as int)),
                decreases tags@.len() - i,
            {
                assert(all.skip(i as int)[0] == all[i as int]);
                assert(all.skip(i as int).drop_first() == all.skip(i + 1));
                match &tags[i] {
                    Yaml::Text(tag) => match technique_from_tag(tag.as_str()) {
                        Some(technique) => {
                            return technique;
                        },
                        None => {},
                    },
                    _ => {},
                }
                i += 1;
            }
            "TA0000".to_string()
        },
        _ => "TA0000".to_string(),
    }
}

/// The log source a node names, or why it cannot be matched.
pub open spec fn logsource_of(node: Node) -> Result<(Option<Seq<char>>, Seq<char>), Seq<char>> {
    let product = text_member(node, "product"@);
    let service = text_member(node, "service"@);
    let category = text_member(node, "category"@);
    if product is Some && folded(product->0) != folded(PRODUCT@) {
        Err("logsource product `"@ + product->0 + "` is not `"@ + PRODUCT@ + "`"@)
    } else if service is Some {
        Err(
            "logsource service `"@ + service->0
                + "` is not mapped; this engine matches on category only"@,
        )
    } else if category is None {
        Err("logsource names no category, and service-based log sources are not mapped"@)
    } else if !category_known(category->0) {
        Err("logsource category `"@ + category->0 + "` has no event mapping"@)
    } else {
        Ok((product, category->0))
    }
}

/// Reads a rule's `logsource`.
pub fn parse_logsource(node: &Yaml) -> (source: Result<LogSource, LoadError>)
    ensures
        match source {
            Ok(s) => logsource_of(node.node()) == Ok::<(Option<Seq<char>>, Seq<char>), Seq<char>>(
                (optional_view(s.product), s.category@),
            ),
            Err(LoadError(reason)) => logsource_of(node.node()) == Err::<
                (Option<Seq<char>>, Seq<char>),
                Seq<char>,
            >(reason@),
        },
{
    let product: Option<String> = match node.get_text("product") {
        Some(p) => {
            let given = folded_text(chars_of(p.as_str()).as_slice());
            let ours = folded_text(chars_of(PRODUCT).as_slice());
            if !same(given.as_str(), ours.as_str()) {
                return Err(
                    LoadError(
                        concat5("logsource product `", p.as_str(), "` is not `", PRODUCT, "`"),
                    ),
                );
            }
            Some(p.clone())
        },
        None => None,
    };
    match node.get_text("service") {
        Some(service) => {
            return Err(
                LoadError(
                    concat3(
                        "logsource service `",
                        service.as_str(),
                        "` is not mapped; this engine matches on category only",
                    ),
                ),
            );
        },
        None => {},
    }
    match node.get_text("category") {
        None => Err(
            LoadError(
                "logsource names no category, and service-based log sources are not mapped".to_string(),
            ),
        ),
        Some(category) => {
            if !is_category(category.as_str()) {
                return Err(
                    LoadError(
                        concat3(
                            "logsource category `",
                            category.as_str(),
                            "` has no event mapping",
                        ),
                    ),
                );
            }
            Ok(LogSource { product, category: category.clone() })
        },
    }
}

/// Those of the first `n` names that no view of a category produces, each once.
pub open spec fn unmapped_of(category: Seq<char>, names: Seq<Seq<char>>, n: nat) -> Seq<Seq<char>>
    decreases n,
{
    if n == 0 {
        seq![]
    } else {
        let front = unmapped_of(category, names, (n - 1) as nat);
        if !mappable(category, names[n - 1]) && !front.contains(names[n - 1]) {
            front.push(names[n - 1])
        } else {
            front
        }
    }
}

/// The rule a document makes, or why it makes none.
pub open spec fn rule_of(document: Node) -> Result<RuleModel, Seq<char>> {
    let title = text_member(document, "title"@);
    let id = text_member(document, "id"@);
    let level = text_member(document, "level"@);
    let logsource = member(document, "logsource"@);
    let detection = member(document, "detection"@);
    if !(document is Mapping) {
        Err("the document is not a mapping"@)
    } else if title is None {
        Err("no `title`"@)
    } else if trimmed(title->0).len() == 0 {
        Err("empty `title`"@)
    } else if logsource is None {
        Err("no `logsource`"@)
    } else {
        match logsource_of(logsource->0) {
            Err(reason) => Err(reason),
            Ok((product, category)) => if detection is None {
                Err("no `detection`"@)
            } else {
                match compiled(detection->0) {
                    Err(reason) => Err(reason),
                    Ok(plan) => {
                        let reads = plan_reads(plan.selections, plan.selections.len());
                        Ok(
                            RuleModel {
                                id: if id is Some {
                                    id->0
                                } else {
                                    slug_of(title->0)
                                },
                                title: title->0,
                                level: if level is Some {
                                    level_of(level->0)
                                } else {
                                    Level::Informational
                                },
                                technique: technique_of(document),
                                product,
                                category,
                                plan,
                                unmapped: unmapped_of(category, reads, reads.len()),
                            },
                        )
                    },
                }
            },
        }
    }
}

/// The rule a YAML source makes: its first document's.
pub open spec fn parsed_rule(documents: Result<Seq<Node>, Seq<char>>) -> Result<
    RuleModel,
    Seq<char>,
> {
    match documents {
        Err(reason) => Err("not YAML: "@ + reason),
        Ok(all) => if all.len() == 0 {
            Err("empty document"@)
        } else {
            rule_of(all[0])
        },
    }
}

/// The names a view of a category can carry.
pub open spec fn available_names(category: Seq<char>) -> Seq<Seq<char>> {
    UNIVERSAL_FIELDS@.map_values(|n: &'static str| n@) + category_fields(category)
}

proof fn lemma_available(category: Seq<char>, name: Seq<char>)
    ensures
        available_names(category).contains(name) == mappable(category, name),
{
    let base = UNIVERSAL_FIELDS@.map_values(|n: &'static str| n@);
    let own = category_fields(category);
    let all = available_names(category);
    if mappable(category, name) {
        if universal(name) {
            let i = choose|i: int| 0 <= i < 3 && (#[trigger] UNIVERSAL_FIELDS@[i])@ == name;
            assert(all[i] == name);
        } else {
            let i = choose|i: int| 0 <= i < own.len() && own[i] == name;
            assert(all[base.len() + i] == name);
        }
    }
    if all.contains(name) {
        let i = choose|i: int| 0 <= i < all.len() && all[i] == name;
        if i < base.len() {
            assert(UNIVERSAL_FIELDS@[i]@ == name);
        } else {
            assert(own[i - base.len()] == name);
        }
    }
}

/// A rule that cannot fire matches no event of its category.
pub proof fn dead_rules_never_match(plan: Plan, event: TelemetryEvent, readings: Readings)
    requires
        kind_category(event.kind) is Some,
        !formula_possible(
            plan.selections,
            plan.condition,
            available_names(kind_category(event.kind)->0),
        ),
    ensures
        !formula_holds(plan.selections, plan.condition, event_fields(event), readings),
{
    let category = kind_category(event.kind)->0;
    let fields = event_fields(event);
    assert forall|name: Seq<char>|
        (#[trigger] field_datum(fields, name)) is Some implies available_names(category).contains(
        name,
    ) by {
        views_carry_only_mappable_fields(event, name);
        lemma_available(category, name);
    }
    assert(within(fields, available_names(category)));
    if formula_holds(plan.selections, plan.condition, fields, readings) {
        what_holds_is_possible(
            plan.selections,
            plan.condition,
            fields,
            readings,
            available_names(category),
        );
    }
}

impl Rule {
    /// Whether this rule could ever match an event.
    ///
    /// A field the sensor cannot produce makes the rule dead only where the
    /// condition requires it.
    pub fn can_fire(&self) -> (yes: bool)
        ensures
            yes == formula_possible(
                self.model().plan.selections,
                self.model().plan.condition,
                available_names(self.model().category),
            ),
    {
        let mut names: Vec<&str> = Vec::new();
        let ghost base = UNIVERSAL_FIELDS@.map_values(|n: &'static str| n@);
        names.push(UNIVERSAL_FIELDS[0]);
        names.push(UNIVERSAL_FIELDS[1]);
        names.push(UNIVERSAL_FIELDS[2]);
        assert(str_views(names@) == base);
        let own = known_fields(self.logsource.category.as_str());
        let ghost rest = own@.map_values(|n: &'static str| n@);
        let mut i: usize = 0;
        assert(base + rest.take(0) == base);
        while i < own.len()
            invariant
                i <= own@.len(),
                rest == own@.map_values(|n: &'static str| n@),
                str_views(names@) == base + rest.take(i as int),
            decreases own@.len() - i,
        {
            let ghost before = str_views(names@);
            names.push(own[i]);
            assert(str_views(names@) == before.push(rest[i as int]));
            assert(rest.take(i + 1) == rest.take(i as int).push(rest[i as int]));
            i += 1;
        }
        assert(rest.take(i as int) == rest);
        assert(str_views(names@) == available_names(self.logsource.category@));
        self.detection.satisfiable(names.as_slice())
    }

    /// Parses one rule from YAML.
    pub fn parse(source: &str) -> (rule: Result<Rule, LoadError>)
        ensures
            match rule {
                Ok(r) => parsed_rule(yaml_documents(source@)) == Ok::<RuleModel, Seq<char>>(
                    r.model(),
                ),
                Err(LoadError(reason)) => parsed_rule(yaml_documents(source@)) == Err::<
                    RuleModel,
                    Seq<char>,
                >(reason@),
            },
    {
        match Yaml::documents(source) {
            Err(reason) => Err(LoadError(concat("not YAML: ", reason.as_str()))),
            Ok(documents) => Rule::from_documents(&documents),
        }
    }

    /// The rule the first of a source's documents makes.
    pub fn from_documents(documents: &Vec<Yaml>) -> (rule: Result<Rule, LoadError>)
        ensures
            match rule {
                Ok(r) => parsed_rule(Ok(nodes(documents@))) == Ok::<RuleModel, Seq<char>>(
                    r.model(),
                ),
                Err(LoadError(reason)) => parsed_rule(Ok(nodes(documents@))) == Err::<
                    RuleModel,
                    Seq<char>,
                >(reason@),
            },
    {
        if documents.len() == 0 {
            return Err(LoadError("empty document".to_string()));
        }
        assert(nodes(documents@)[0] == documents@[0].node());
        Rule::from_document(&documents[0])
    }

    /// The rule a document makes.
    pub fn from_document(document: &Yaml) -> (rule: Result<Rule, LoadError>)
        ensures
            match rule {
                Ok(r) => rule_of(document.node()) == Ok::<RuleModel, Seq<char>>(r.model()),
                Err(LoadError(reason)) => rule_of(document.node()) == Err::<RuleModel, Seq<char>>(
                    reason@,
                ),
            },
    {
        if !matches!(document, Yaml::Mapping(_)) {
            return Err(LoadError("the document is not a mapping".to_string()));
        }
        let title = match document.get_text("title") {
            Some(title) => title.clone(),
            None => {
                return Err(LoadError("no `title`".to_string()));
            },
        };
        if trim(chars_of(title.as_str()).as_slice()).len() == 0 {
            return Err(LoadError("empty `title`".to_string()));
        }
        let id = match document.get_text("id") {
            Some(id) => id.clone(),
            None => slug(title.as_str()),
        };
        let level = match document.get_text("level") {
            Some(level) => Level::parse(level.as_str()),
            None => Level::Informational,
        };
        let technique = technique_from_tags(document);
        let logsource = match document.get("logsource") {
            None => {
                return Err(LoadError("no `logsource`".to_string()));
            },
            Some(node) => match parse_logsource(node) {
                Ok(source) => source,
                Err(reason) => {
                    return Err(reason);
                },
            },
        };
        let detection = match document.get("detection") {
            None => {
                return Err(LoadError("no `detection`".to_string()));
            },
            Some(node) => match compile(node) {
                Ok(detection) => detection,
                Err(CompileError(reason)) => {
                    return Err(LoadError(reason));
                },
            },
        };
        let mut unmapped_fields: Vec<String> = Vec::new();
        {
            let fields = detection.fields();
            let ghost reads = str_views(fields@);
            let mut i: usize = 0;
            assert(unmapped_fields@.map_values(|s: String| s@) == Seq::<Seq<char>>::empty());
            while i < fields.len()
                invariant
                    i <= fields@.len(),
                    reads == str_views(fields@),
                    unmapped_fields@.map_values(|s: String| s@) == unmapped_of(
                        logsource.category@,
                        reads,
                        i as nat,
                    ),
                decreases fields@.len() - i,
            {
                let ghost seen = unmapped_fields@.map_values(|s: String| s@);
                let field = fields[i];
                assert(field@ == reads[i as int]);
                proof {
                    assert(seen.contains(field@) == listed(unmapped_fields@, field@)) by {
                        if seen.contains(field@) {
                            let k = choose|k: int| 0 <= k < seen.len() && seen[k] == field@;
                            assert(unmapped_fields@[k]@ == field@);
                        }
                        if listed(unmapped_fields@, field@) {
                            let k = choose|k: int|
                                0 <= k < unmapped_fields@.len() && (
                                #[trigger] unmapped_fields@[k])@ == field@;
                            assert(seen[k] == field@);
                        }
                    }
                }
                if !field_is_mappable(logsource.category.as_str(), field)
                    && !crate::text::is_listed(unmapped_fields.as_slice(), field) {
                    let ghost before = unmapped_fields@;
                    unmapped_fields.push(field.to_string());
                    assert(unmapped_fields@.map_values(|s: String| s@) == seen.push(field@));
                }
                i += 1;
            }
        }
        Ok(Rule { id, title, level, technique, logsource, detection, unmapped_fields })
    }
}

/// One rule firing on one event.
#[derive(Debug, Clone)]
pub struct Hit {
    pub rule_id: String,
    pub title: String,
    pub technique: String,
    pub likelihood: Likelihood,
    /// Human-readable reason. Minimised before it leaves the host.
    pub detail: String,
}

/// One rule firing, as mathematics.
pub struct HitModel {
    pub rule_id: Seq<char>,
    pub title: Seq<char>,
    pub technique: Seq<char>,
    pub likelihood: Likelihood,
    pub detail: Seq<char>,
}

impl Hit {
    pub open spec fn model(&self) -> HitModel {
        HitModel {
            rule_id: self.rule_id@,
            title: self.title@,
            technique: self.technique@,
            likelihood: self.likelihood,
            detail: self.detail@,
        }
    }
}

/// What a rule that fires reports.
pub open spec fn hit_of(rule: RuleModel) -> HitModel {
    HitModel {
        rule_id: rule.id,
        title: rule.title,
        technique: rule.technique,
        likelihood: rule.level.weight(),
        detail: "sigma: "@ + rule.title,
    }
}

/// Whether a rule is written for an event's category and holds of it.
pub open spec fn fires(rule: RuleModel, event: TelemetryEvent, readings: Readings) -> bool {
    kind_category(event.kind) == Some(rule.category) && formula_holds(
        rule.plan.selections,
        rule.plan.condition,
        event_fields(event),
        readings,
    )
}

/// What the first `n` rules report of an event, in the order of the rules.
pub open spec fn hits_of(
    rules: Seq<RuleModel>,
    n: nat,
    event: TelemetryEvent,
    readings: Readings,
) -> Seq<HitModel>
    decreases n,
{
    if n == 0 {
        seq![]
    } else {
        let front = hits_of(rules, (n - 1) as nat, event, readings);
        if fires(rules[n - 1], event, readings) {
            front.push(hit_of(rules[n - 1]))
        } else {
            front
        }
    }
}

/// The models of a list of rules.
pub open spec fn rule_models(rules: Seq<Rule>) -> Seq<RuleModel> {
    rules.map_values(|r: Rule| r.model())
}

/// The models of a list of hits.
pub open spec fn hit_models(hits: Seq<Hit>) -> Seq<HitModel> {
    hits.map_values(|h: Hit| h.model())
}

/// The positions of those of the first `n` rules written for a category.
pub open spec fn positions(rules: Seq<RuleModel>, n: nat, category: Seq<char>) -> Seq<int>
    decreases n,
{
    if n == 0 {
        seq![]
    } else {
        let front = positions(rules, (n - 1) as nat, category);
        if rules[n - 1].category == category {
            front.push(n - 1)
        } else {
            front
        }
    }
}

/// The numbers of a list.
pub open spec fn as_ints(list: Seq<usize>) -> Seq<int> {
    list.map_values(|n: usize| n as int)
}

/// A loaded ruleset.
#[derive(Debug, Clone)]
pub struct RuleSet {
    rules: Vec<Rule>,
    /// The positions of each category's rules, by the category's place among
    /// the categories, so evaluation touches only the rules that could apply.
    by_category: Vec<Vec<usize>>,
    /// One line per rule that did not load, and why.
    problems: Vec<String>,
}

/// Reads one rule file's source, or says why it could not be read.
pub type Reading = Result<String, String>;

/// What one named source adds to a set: a rule, or a problem.
pub open spec fn source_outcome(name: Seq<char>, reading: Reading) -> Result<RuleModel, Seq<char>> {
    match reading {
        Err(reason) => Err(name + ": cannot read: "@ + reason@),
        Ok(source) => match parsed_rule(yaml_documents(source@)) {
            Ok(rule) => Ok(rule),
            Err(reason) => Err(name + ": "@ + reason),
        },
    }
}

/// The rules the first `n` sources make.
pub open spec fn sourced_rules(sources: Seq<(String, Reading)>, n: nat) -> Seq<RuleModel>
    decreases n,
{
    if n == 0 {
        seq![]
    } else {
        let front = sourced_rules(sources, (n - 1) as nat);
        match source_outcome(sources[n - 1].0@, sources[n - 1].1) {
            Ok(rule) => front.push(rule),
            Err(_) => front,
        }
    }
}

/// The problems the first `n` sources make.
pub open spec fn sourced_problems(sources: Seq<(String, Reading)>, n: nat) -> Seq<Seq<char>>
    decreases n,
{
    if n == 0 {
        seq![]
    } else {
        let front = sourced_problems(sources, (n - 1) as nat);
        match source_outcome(sources[n - 1].0@, sources[n - 1].1) {
            Ok(_) => front,
            Err(reason) => front.push(reason),
        }
    }
}

/// Every source becomes a rule or a problem: one bad rule costs no other.
pub proof fn every_source_is_accounted_for(sources: Seq<(String, Reading)>, n: nat)
    ensures
        sourced_rules(sources, n).len() + sourced_problems(sources, n).len() == n,
    decreases n,
{
    if n > 0 {
        every_source_is_accounted_for(sources, (n - 1) as nat);
    }
}

/// The place of a category among the categories.
fn category_place(name: &str) -> (place: Option<usize>)
    ensures
        match place {
            Some(i) => i < 10 && CATEGORIES@[i as int]@ == name@,
            None => !category_known(name@),
        },
{
    let mut i: usize = 0;
    while i < 10
        invariant
            i <= 10,
            forall|k: int| 0 <= k < i ==> (#[trigger] CATEGORIES@[k])@ != name@,
        decreases 10 - i,
    {
        if same(CATEGORIES[i], name) {
            return Some(i);
        }
        i += 1;
    }
    None
}

fn index_by_category(rules: &Vec<Rule>) -> (index: Vec<Vec<usize>>)
    ensures
        index@.len() == 10,
        forall|c: int|
            0 <= c < 10 ==> as_ints((#[trigger] index@[c])@) == positions(
                rule_models(rules@),
                rules@.len(),
                CATEGORIES@[c]@,
            ),
{
    let ghost models = rule_models(rules@);
    let mut index: Vec<Vec<usize>> = Vec::new();
    let mut c: usize = 0;
    while c < 10
        invariant
            c <= 10,
            index@.len() == c,
            models == rule_models(rules@),
            forall|k: int|
                0 <= k < c ==> as_ints((#[trigger] index@[k])@) == positions(
                    models,
                    rules@.len(),
                    CATEGORIES@[k]@,
                ),
        decreases 10 - c,
    {
        let mut bucket: Vec<usize> = Vec::new();
        let mut i: usize = 0;
        assert(as_ints(bucket@) == Seq::<int>::empty());
        while i < rules.len()
            invariant
                i <= rules@.len(),
                c < 10,
                models == rule_models(rules@),
                as_ints(bucket@) == positions(models, i as nat, CATEGORIES@[c as int]@),
            decreases rules@.len() - i,
        {
            let ghost before = bucket@;
            if same(rules[i].logsource.category.as_str(), CATEGORIES[c]) {
                bucket.push(i);
                assert(as_ints(bucket@) == as_ints(before).push(i as int));
            }
            i += 1;
        }
        index.push(bucket);
        c += 1;
    }
    index
}

impl RuleSet {
    /// The rules, in order.
    pub closed spec fn models(&self) -> Seq<RuleModel> {
        rule_models(self.rules@)
    }

    /// The problems, in order.
    pub closed spec fn troubles(&self) -> Seq<Seq<char>> {
        self.problems@.map_values(|s: String| s@)
    }

    /// The index lists exactly each category's rules.
    pub closed spec fn wf(&self) -> bool {
        &&& self.by_category@.len() == 10
        &&& forall|c: int|
            0 <= c < 10 ==> as_ints((#[trigger] self.by_category@[c])@) == positions(
                self.models(),
                self.models().len(),
                CATEGORIES@[c]@,
            )
    }

    /// A ruleset with no rules.
    pub fn empty() -> (set: RuleSet)
        ensures
            set.wf(),
            set.models().len() == 0,
            set.troubles().len() == 0,
    {
        RuleSet::from_rules(Vec::new())
    }

    /// A set built from already-parsed rules.
    pub fn from_rules(rules: Vec<Rule>) -> (set: RuleSet)
        ensures
            set.wf(),
            set.models() == rule_models(rules@),
            set.troubles().len() == 0,
    {
        let by_category = index_by_category(&rules);
        RuleSet { rules, by_category, problems: Vec::new() }
    }

    pub fn rules(&self) -> (rules: &[Rule])
        ensures
            rule_models(rules@) == self.models(),
    {
        self.rules.as_slice()
    }

    pub fn len(&self) -> (n: usize)
        ensures
            n == self.models().len(),
    {
        self.rules.len()
    }

    pub fn is_empty(&self) -> (empty: bool)
        ensures
            empty == (self.models().len() == 0),
    {
        self.rules.len() == 0
    }

    /// Whether a rule of the set can never fire.
    pub open spec fn dead(model: RuleModel) -> bool {
        !formula_possible(
            model.plan.selections,
            model.plan.condition,
            available_names(model.category),
        )
    }

    /// Rules that loaded but can never fire, because the condition requires a
    /// field this sensor does not emit, in order.
    pub fn rules_that_cannot_fire(&self) -> (dead: Vec<&Rule>)
        ensures
            dead@.map_values(|r: &Rule| r.model()) == self.models().filter(
                |m: RuleModel| RuleSet::dead(m),
            ),
    {
        let ghost all = self.models();
        let ghost keep = |m: RuleModel| RuleSet::dead(m);
        let mut out: Vec<&Rule> = Vec::new();
        let mut i: usize = 0;
        assert(all.take(0) == Seq::<RuleModel>::empty());
        proof {
            reveal(Seq::filter);
        }
        assert(out@.map_values(|r: &Rule| r.model()) == all.take(0).filter(keep));
        while i < self.rules.len()
            invariant
                i <= self.rules@.len(),
                all == self.models(),
                keep == (|m: RuleModel| RuleSet::dead(m)),
                out@.map_values(|r: &Rule| r.model()) == all.take(i as int).filter(keep),
            decreases self.rules@.len() - i,
        {
            proof {
                reveal(Seq::filter);
                assert(all.take(i + 1).drop_last() == all.take(i as int));
                assert(all.take(i + 1).last() == self.rules@[i as int].model());
            }
            let ghost before = out@.map_values(|r: &Rule| r.model());
            if !self.rules[i].can_fire() {
                out.push(&self.rules[i]);
                assert(out@.map_values(|r: &Rule| r.model()) == before.push(
                    self.rules@[i as int].model(),
                ));
            }
            i += 1;
        }
        assert(all.take(i as int) == all);
        out
    }

    /// Why a source did not become a rule.
    pub fn problems(&self) -> (problems: &[String])
        ensures
            problems@.map_values(|s: String| s@) == self.troubles(),
    {
        self.problems.as_slice()
    }

    /// Parses a single rule.
    pub fn from_yaml(source: &str) -> (rule: Result<Rule, LoadError>)
        ensures
            match rule {
                Ok(r) => parsed_rule(yaml_documents(source@)) == Ok::<RuleModel, Seq<char>>(
                    r.model(),
                ),
                Err(LoadError(reason)) => parsed_rule(yaml_documents(source@)) == Err::<
                    RuleModel,
                    Seq<char>,
                >(reason@),
            },
    {
        Rule::parse(source)
    }

    /// Whether a file of this extension holds a rule.
    pub fn is_rule_extension(extension: &str) -> (yes: bool)
        ensures
            yes == (extension@ == "yml"@ || extension@ == "yaml"@),
    {
        same(extension, "yml") || same(extension, "yaml")
    }

    /// The set a list of named sources makes, in order.
    ///
    /// A source that could not be read, does not parse, or uses a construct this
    /// engine does not implement, is recorded as a problem and the rest still
    /// load.
    pub fn from_sources(sources: &Vec<(String, Reading)>) -> (set: RuleSet)
        ensures
            set.wf(),
            set.models() == sourced_rules(sources@, sources@.len()),
            set.troubles() == sourced_problems(sources@, sources@.len()),
    {
        let mut rules: Vec<Rule> = Vec::new();
        let mut problems: Vec<String> = Vec::new();
        let mut i: usize = 0;
        assert(rule_models(rules@) == Seq::<RuleModel>::empty());
        assert(problems@.map_values(|s: String| s@) == Seq::<Seq<char>>::empty());
        while i < sources.len()
            invariant
                i <= sources@.len(),
                rule_models(rules@) == sourced_rules(sources@, i as nat),
                problems@.map_values(|s: String| s@) == sourced_problems(sources@, i as nat),
            decreases sources@.len() - i,
        {
            let ghost had = rules@;
            let ghost troubled = problems@.map_values(|s: String| s@);
            let name = &sources[i].0;
            let mut problem: Option<String> = None;
            match &sources[i].1 {
                Err(reason) => {
                    problem = Some(concat3(name.as_str(), ": cannot read: ", reason.as_str()));
                },
                Ok(source) => match Rule::parse(source.as_str()) {
                    Ok(rule) => {
                        rules.push(rule);
                        assert(rule_models(rules@) == rule_models(had).push(rule.model()));
                    },
                    Err(LoadError(reason)) => {
                        problem = Some(concat3(name.as_str(), ": ", reason.as_str()));
                    },
                },
            }
            match problem {
                Some(line) => {
                    problems.push(line);
                    assert(problems@.map_values(|s: String| s@) == troubled.push(line@));
                },
                None => {},
            }
            i += 1;
        }
        let by_category = index_by_category(&rules);
        RuleSet { rules, by_category, problems }
    }

    /// Every rule that applies to this event and matches it, in the order of the
    /// rules. An event of a category no rule is written for costs no view.
    pub fn evaluate(&self, event: &TelemetryEvent, readings: &Readings) -> (hits: Vec<Hit>)
        requires
            self.wf(),
        ensures
            hit_models(hits@) == hits_of(self.models(), self.models().len(), *event, *readings),
    {
        let ghost all = self.models();
        let category = match category_of(event) {
            Some(category) => category,
            None => {
                proof {
                    lemma_no_category(all, all.len(), *event, *readings);
                }
                return Vec::new();
            },
        };
        proof {
            lemma_kind_category_known(event.kind);
        }
        let place = match category_place(category) {
            Some(place) => place,
            None => {
                return Vec::new();
            },
        };
        let ghost listed_at = positions(all, all.len(), category@);
        proof {
            lemma_positions(all, all.len(), category@);
        }
        let bucket = &self.by_category[place];
        assert(as_ints(bucket@) == listed_at);
        if bucket.len() == 0 {
            proof {
                lemma_hits_at(all, all.len(), *event, *readings, category@);
                assert(listed_at.len() == 0);
            }
            return Vec::new();
        }
        let view = match EventView::of(event) {
            Some(view) => view,
            None => {
                return Vec::new();
            },
        };
        let mut hits: Vec<Hit> = Vec::new();
        let mut i: usize = 0;
        assert(hit_models(hits@) == hits_at(all, listed_at, 0, *event, *readings));
        while i < bucket.len()
            invariant
                i <= bucket@.len(),
                all == self.models(),
                as_ints(bucket@) == listed_at,
                view.data() == event_fields(*event),
                forall|k: int| 0 <= k < listed_at.len() ==> 0 <= #[trigger] listed_at[k] < all.len(),
                hit_models(hits@) == hits_at(all, listed_at, i as nat, *event, *readings),
            decreases bucket@.len() - i,
        {
            let at: usize = bucket[i];
            assert(listed_at[i as int] == at);
            let rule = &self.rules[at];
            assert(all[at as int] == rule.model());
            if rule.detection.matches(&view, readings) {
                let ghost before = hit_models(hits@);
                let hit = Hit {
                    rule_id: rule.id.clone(),
                    title: rule.title.clone(),
                    technique: rule.technique.clone(),
                    likelihood: rule.level.likelihood(),
                    detail: concat("sigma: ", rule.title.as_str()),
                };
                let ghost said = hit.model();
                hits.push(hit);
                assert(hit_models(hits@) == before.push(said));
            }
            i += 1;
        }
        proof {
            lemma_hits_at(all, all.len(), *event, *readings, category@);
        }
        hits
    }

    /// The title of the first rule of an id.
    pub open spec fn titled(models: Seq<RuleModel>, id: Seq<char>) -> Option<Seq<char>>
        decreases models.len(),
    {
        if models.len() == 0 {
            None
        } else if models[0].id == id {
            Some(models[0].title)
        } else {
            RuleSet::titled(models.drop_first(), id)
        }
    }

    /// A rule's human title, by id.
    pub fn title_of(&self, id: &str) -> (title: Option<&str>)
        ensures
            match title {
                Some(t) => RuleSet::titled(self.models(), id@) == Some(t@),
                None => RuleSet::titled(self.models(), id@) is None,
            },
    {
        let ghost all = self.models();
        let mut i: usize = 0;
        assert(all.skip(0) == all);
        while i < self.rules.len()
            invariant
                i <= self.rules@.len(),
                all == self.models(),
                RuleSet::titled(all, id@) == RuleSet::titled(all.skip(i as int), id@),
            decreases self.rules@.len() - i,
        {
            assert(all.skip(i as int)[0] == self.rules@[i as int].model());
            assert(all.skip(i as int).drop_first() == all.skip(i + 1));
            if same(self.rules[i].id.as_str(), id) {
                return Some(self.rules[i].title.as_str());
            }
            i += 1;
        }
        None
    }
}

impl Default for RuleSet {
    fn default() -> (set: RuleSet)
        ensures
            set.wf(),
            set.models().len() == 0,
            set.troubles().len() == 0,
    {
        RuleSet::empty()
    }
}

/// What the rules at the first `n` of the given positions report.
spec fn hits_at(
    rules: Seq<RuleModel>,
    at: Seq<int>,
    n: nat,
    event: TelemetryEvent,
    readings: Readings,
) -> Seq<HitModel>
    decreases n,
{
    if n == 0 {
        seq![]
    } else {
        let front = hits_at(rules, at, (n - 1) as nat, event, readings);
        let rule = rules[at[n - 1]];
        if formula_holds(
            rule.plan.selections,
            rule.plan.condition,
            event_fields(event),
            readings,
        ) {
            front.push(hit_of(rule))
        } else {
            front
        }
    }
}

proof fn lemma_hits_prefix(
    rules: Seq<RuleModel>,
    a: Seq<int>,
    b: Seq<int>,
    n: nat,
    event: TelemetryEvent,
    readings: Readings,
)
    requires
        n <= a.len(),
        n <= b.len(),
        forall|i: int| 0 <= i < n ==> a[i] == b[i],
    ensures
        hits_at(rules, a, n, event, readings) == hits_at(rules, b, n, event, readings),
    decreases n,
{
    if n > 0 {
        lemma_hits_prefix(rules, a, b, (n - 1) as nat, event, readings);
    }
}

/// Reading a category's positions reports what reading every rule reports.
proof fn lemma_hits_at(
    rules: Seq<RuleModel>,
    n: nat,
    event: TelemetryEvent,
    readings: Readings,
    category: Seq<char>,
)
    requires
        n <= rules.len(),
        kind_category(event.kind) == Some(category),
    ensures
        hits_of(rules, n, event, readings) == hits_at(
            rules,
            positions(rules, n, category),
            positions(rules, n, category).len(),
            event,
            readings,
        ),
    decreases n,
{
    if n > 0 {
        let m = (n - 1) as nat;
        lemma_hits_at(rules, m, event, readings, category);
        let front = positions(rules, m, category);
        let whole = positions(rules, n, category);
        if rules[n - 1].category == category {
            assert(whole == front.push(n - 1));
            lemma_hits_prefix(rules, front, whole, front.len(), event, readings);
            assert(whole[front.len() as int] == n - 1);
        }
    }
}

proof fn lemma_positions(rules: Seq<RuleModel>, n: nat, category: Seq<char>)
    requires
        n <= rules.len(),
    ensures
        forall|k: int|
            0 <= k < positions(rules, n, category).len() ==> 0 <= #[trigger] positions(
                rules,
                n,
                category,
            )[k] < n,
    decreases n,
{
    if n > 0 {
        lemma_positions(rules, (n - 1) as nat, category);
        let front = positions(rules, (n - 1) as nat, category);
        let whole = positions(rules, n, category);
        assert forall|k: int| 0 <= k < whole.len() implies 0 <= #[trigger] whole[k] < n by {
            if k < front.len() {
                assert(whole[k] == front[k]);
            }
        }
    }
}

proof fn lemma_no_category(
    rules: Seq<RuleModel>,
    n: nat,
    event: TelemetryEvent,
    readings: Readings,
)
    requires
        kind_category(event.kind) is None,
    ensures
        hits_of(rules, n, event, readings).len() == 0,
    decreases n,
{
    if n > 0 {
        lemma_no_category(rules, (n - 1) as nat, event, readings);
    }
}

proof fn lemma_kind_category_known(kind: EventKind)
    ensures
        kind_category(kind) matches Some(category) ==> category_known(category),
{
    match kind_category(kind) {
        Some(category) => {
            let known = CATEGORIES@;
            assert(exists|i: int| 0 <= i < 10 && (#[trigger] known[i])@ == category) by {
                match kind {
                    EventKind::ProcessStart(_) => assert(known[0]@ == category),
                    EventKind::ProcessExit(_) => assert(known[1]@ == category),
                    EventKind::ImageLoad(_) => assert(known[2]@ == category),
                    EventKind::RegistrySet(_) => assert(known[3]@ == category),
                    EventKind::FileCreate(_) => assert(known[4]@ == category),
                    EventKind::FileDelete(_) => assert(known[5]@ == category),
                    EventKind::FileRename(_) => assert(known[6]@ == category),
                    EventKind::DnsQuery(_) => assert(known[7]@ == category),
                    EventKind::NetworkConnect(_) => assert(known[8]@ == category),
                    EventKind::ScriptBlock(_) => assert(known[9]@ == category),
                    _ => {},
                }
            }
        },
        None => {},
    }
}

} // verus!
