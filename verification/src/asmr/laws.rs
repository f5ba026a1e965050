//! What the algebra promises, stated over its inputs and its results.
use super::action::{action_of, clamped_severity, permitted_ids, Action, ActionId, ActionKind};
use super::compose::{is_end, leads, reaches, Link};
use super::governance::{
    governed, record_of, ActionRequest, AutonomyLevel, GovernancePolicy, Severity, Verdict,
};
use super::observe::ObservationMap;
use super::order::{in_order, is_first_highest, Candidate};
use super::privacy::{bucket, kept_token, kept_tokens, minimised};
use super::recovery::not_negative;
use super::scale::{bucket_width, cuts};
use super::state::{is_kind, is_labelled, Entity, EntityKind};
use super::trace::TraceEvent;
use super::trust::kept_in_unit;
use crate::text::{index_from, last_of, lemma_index_from, lemma_last_of, pieces};
use vstd::arithmetic::power2::{lemma_pow2_unfold, pow2};
use vstd::prelude::*;

verus! {

/// The ladder runs from watching to rolling back, each kind above the one before
/// it.
pub proof fn each_kind_is_a_rung_above_the_last()
    ensures
        ActionKind::Observe.step() < ActionKind::Enrich.step(),
        ActionKind::Enrich.step() < ActionKind::Alert.step(),
        ActionKind::Alert.step() < ActionKind::CompensatingControl.step(),
        ActionKind::CompensatingControl.step() < ActionKind::Freeze.step(),
        ActionKind::Freeze.step() < ActionKind::Isolate.step(),
        ActionKind::Isolate.step() < ActionKind::Rollback.step(),
{
}

/// The kind of an action outweighs any severity; within a kind the severer action
/// stands higher.
pub proof fn kinds_outweigh_severities(a: Action, b: Action)
    ensures
        a.kind.step() < b.kind.step() ==> a.height() < b.height(),
        a.kind == b.kind ==> (a.height() < b.height() <==> a.severity < b.severity),
{
}

/// A severity from one to five is kept, and any other becomes the nearer end.
pub proof fn severities_are_kept_from_one_to_five(severity: u8)
    ensures
        1 <= clamped_severity(severity) <= 5,
        1 <= severity <= 5 ==> clamped_severity(severity) == severity,
        severity == 0 ==> clamped_severity(severity) == 1,
        severity >= 5 ==> clamped_severity(severity) == 5,
{
}

/// An action is found by its id: it is registered under it, and none before it
/// is. None is found only where none has the id.
pub proof fn the_first_action_of_an_id_is_found(actions: Seq<Action>, id: ActionId)
    ensures
        match action_of(actions, id) {
            Some(found) => exists|i: int|
                0 <= i < actions.len() && #[trigger] actions[i] == found && found.id == id && (
                forall|j: int| 0 <= j < i ==> (#[trigger] actions[j]).id != id),
            None => forall|j: int| 0 <= j < actions.len() ==> (#[trigger] actions[j]).id != id,
        },
    decreases actions.len(),
{
    if actions.len() > 0 && actions[0].id != id {
        let rest = actions.drop_first();
        the_first_action_of_an_id_is_found(rest, id);
        match action_of(rest, id) {
            Some(found) => {
                let k = choose|i: int|
                    0 <= i < rest.len() && #[trigger] rest[i] == found && found.id == id && (
                    forall|j: int| 0 <= j < i ==> (#[trigger] rest[j]).id != id);
                assert(actions[k + 1] == found);
                assert forall|j: int| 0 <= j < k + 1 implies (#[trigger] actions[j]).id != id by {
                    if j > 0 {
                        assert(rest[j - 1] == actions[j]);
                    }
                }
            },
            None => {
                assert forall|j: int| 0 <= j < actions.len() implies (#[trigger] actions[j]).id
                    != id by {
                    if j > 0 {
                        assert(rest[j - 1] == actions[j]);
                    }
                }
            },
        }
    } else if actions.len() > 0 {
        assert(actions[0] == action_of(actions, id)->0);
    }
}

/// An id is admissible exactly where an action within the severity cap has it,
/// one that can be undone where that is asked for. There are never more
/// admissible ids than actions, and none is left out where nothing is capped.
pub proof fn admissible_actions_are_within_the_cap(
    actions: Seq<Action>,
    n: nat,
    max_severity: u8,
    require_reversible: bool,
    id: ActionId,
)
    requires
        n <= actions.len(),
    ensures
        permitted_ids(actions, n, max_severity, require_reversible).contains(id)
            <==> exists|i: int|
            0 <= i < n && (#[trigger] actions[i]).id == id && actions[i].severity <= max_severity
                && (actions[i].reversible || !require_reversible),
        permitted_ids(actions, n, max_severity, require_reversible).len() <= n,
        permitted_ids(actions, n, 255, false) == Seq::new(n, |i: int| actions[i].id),
    decreases n,
{
    let all = permitted_ids(actions, n, max_severity, require_reversible);
    if n > 0 {
        let m = (n - 1) as nat;
        admissible_actions_are_within_the_cap(actions, m, max_severity, require_reversible, id);
        let front = permitted_ids(actions, m, max_severity, require_reversible);
        if front.contains(id) {
            let k = choose|k: int| 0 <= k < front.len() && front[k] == id;
            assert(all[k] == id);
        }
        if all.contains(id) && !front.contains(id) {
            let k = choose|k: int| 0 <= k < all.len() && all[k] == id;
            if k < front.len() {
                assert(front[k] == id);
            }
            assert(actions[n - 1].id == id);
        }
        let last = actions[n - 1];
        if last.id == id && last.severity <= max_severity && (last.reversible
            || !require_reversible) {
            assert(all[all.len() - 1] == id);
        }
        assert(permitted_ids(actions, n, 255, false) =~= Seq::new(n, |i: int| actions[i].id));
    } else {
        assert(permitted_ids(actions, n, 255, false) =~= Seq::new(n, |i: int| actions[i].id));
    }
}

/// Where autonomy ends at alerts, exactly the disruptive actions are refused; at
/// the approval level exactly they are escalated.
pub proof fn weak_autonomy_holds_disruption_back(
    req: ActionRequest,
    level: AutonomyLevel,
    policy: GovernancePolicy,
)
    ensures
        governed(req, level, policy) == Verdict::Denied <==> req.disruptive && (level
            == AutonomyLevel::Observe || level == AutonomyLevel::Alert),
        level == AutonomyLevel::Approve ==> (governed(req, level, policy)
            == Verdict::RequiresApproval <==> req.disruptive),
{
}

/// The levels of autonomy and the severities stand in the order of their names.
pub proof fn levels_and_severities_are_ordered()
    ensures
        AutonomyLevel::Observe.height() < AutonomyLevel::Alert.height(),
        AutonomyLevel::Alert.height() < AutonomyLevel::Approve.height(),
        AutonomyLevel::Approve.height() < AutonomyLevel::Auto.height(),
        Severity::Info.height() < Severity::Low.height(),
        Severity::Low.height() < Severity::Medium.height(),
        Severity::Medium.height() < Severity::High.height(),
        Severity::High.height() < Severity::Critical.height(),
{
}

/// The record of a decision holds its time, the action's name, the verdict that
/// was issued, and the reason that verdict has.
pub proof fn records_say_what_was_decided_and_why(
    ts_ns: i64,
    req: ActionRequest,
    level: AutonomyLevel,
    policy: GovernancePolicy,
)
    ensures
        ({
            let record = record_of(ts_ns, req, level, policy);
            let severe = req.severity.height() > policy.max_auto.height();
            let auto = req.disruptive && level == AutonomyLevel::Auto;
            &&& record.ts_ns == ts_ns
            &&& record.action == req.name@
            &&& record.verdict == governed(req, level, policy)
            &&& !req.disruptive ==> record.reason == "not disruptive"@
            &&& record.verdict == Verdict::Denied ==> record.reason == "observe-only autonomy"@
            &&& req.disruptive && level == AutonomyLevel::Approve ==> record.reason
                == "approval autonomy level"@
            &&& auto && severe ==> record.reason == "exceeds max_auto severity"@
            &&& auto && !severe && record.verdict == Verdict::RequiresApproval ==> record.reason
                == "irreversible action requires approval"@
            &&& auto && record.verdict == Verdict::Auto ==> record.reason == "within policy"@
        }),
{
}

/// What is covered of a universe is what was observed of it, as long as there is
/// that much of it, and the rest is blind: the two make up the whole.
pub proof fn coverage_is_the_share_observed(map: ObservationMap, universe: usize)
    ensures
        ({
            let covered = map.coverage(universe);
            let blind = covered.complement();
            let seen = map.latest().len();
            &&& universe == 0 ==> covered.num == covered.den == 1
            &&& universe > 0 && seen <= universe ==> covered.num == seen && covered.den == universe
            &&& universe > 0 && seen > universe ==> covered.num == universe == covered.den
            &&& covered.num + blind.num == covered.den
            &&& blind.den == covered.den
        }),
{
}

/// Candidates compete by what they are worth for their cost: no candidate comes
/// behind a less dense one, nor behind an equally dense one of a larger identity.
pub proof fn denser_candidates_come_first(
    all: Seq<Candidate>,
    n: nat,
    order: Seq<usize>,
    i: int,
    j: int,
)
    requires
        in_order(all, n, order),
        0 <= i < j < n,
    ensures
        all[order[i] as int].density >= all[order[j] as int].density,
        all[order[i] as int].density == all[order[j] as int].density ==> all[order[i] as int].id
            <= all[order[j] as int].id,
        order[i] != order[j],
{
    let a = order[i];
    let b = order[j];
    assert(super::order::comes_before(all, a as int, b as int));
}

/// The first of the highest keys is the only one that is: any other key is no
/// higher, and a lower one if it stands before it.
pub proof fn the_first_highest_is_unique(keys: Seq<i64>, at: int, other: int)
    requires
        is_first_highest(keys, at),
        0 <= other < keys.len(),
    ensures
        keys[other] <= keys[at],
        keys[other] == keys[at] ==> at <= other,
        is_first_highest(keys, other) ==> other == at,
{
    assert(keys[other] <= keys[at]);
    if is_first_highest(keys, other) {
        assert(keys[at] <= keys[other]);
        if other < at {
            assert(keys[other] < keys[at]);
        }
        if at < other {
            assert(keys[at] < keys[other]);
        }
    }
}

/// A bucket is as wide as two to its level.
pub proof fn each_level_doubles_the_width(level: nat)
    ensures
        bucket_width(level) == pow2(level),
        bucket_width(0) == 1,
        bucket_width(level + 1) == 2 * bucket_width(level),
    decreases level,
{
    if level > 0 {
        each_level_doubles_the_width((level - 1) as nat);
        lemma_pow2_unfold(level);
    } else {
        vstd::arithmetic::power2::lemma2_to64();
    }
}

/// Buckets follow each other without a gap from the first value to the last, and
/// all but the last are full.
pub proof fn buckets_are_full_but_for_the_last(
    cut: Seq<(usize, usize)>,
    len: nat,
    width: nat,
    i: int,
)
    requires
        cuts(cut, len, width),
        width > 0,
        0 <= i < cut.len(),
    ensures
        cut[0].0 == 0,
        cut.last().1 == len,
        i < cut.len() - 1 ==> cut[i].1 - cut[i].0 == width && cut[i + 1].0 == cut[i].1,
        cut[i].1 - cut[i].0 <= width,
{
    let n = cut.len();
    assert(0 * width == 0) by (nonlinear_arith);
    assert((n - 1) * width + width == n * width) by (nonlinear_arith);
    assert(cut[n - 1].0 == (n - 1) * width);
    assert(cut[i].0 == i * width);
    assert(cut[0].0 == 0 * width);
    if i < n - 1 {
        assert(cut[i + 1].0 == (i + 1) * width);
        assert((i + 1) * width == i * width + width) by (nonlinear_arith);
        assert((i + 1) * width <= (n - 1) * width) by (nonlinear_arith)
            requires
                i + 1 <= n - 1,
                width > 0,
        ;
    }
}

/// Trust is kept between zero and one: a number in between is kept, one above
/// becomes one and one below zero, and what is not a number is one half. Numbers
/// are given as their bit patterns.
pub proof fn trust_is_kept_between_zero_and_one(bits: u64)
    ensures
        kept_in_unit(bits) <= 0x3ff0_0000_0000_0000,
        bits <= 0x3ff0_0000_0000_0000 ==> kept_in_unit(bits) == bits,
        0x3ff0_0000_0000_0000 <= bits <= 0x7ff0_0000_0000_0000 ==> kept_in_unit(bits)
            == 0x3ff0_0000_0000_0000,
        0x7ff0_0000_0000_0000 < bits < 0x8000_0000_0000_0000 ==> kept_in_unit(bits)
            == 0x3fe0_0000_0000_0000,
        0x8000_0000_0000_0000 <= bits <= 0xfff0_0000_0000_0000 ==> kept_in_unit(bits) == 0,
        0xfff0_0000_0000_0000 < bits ==> kept_in_unit(bits) == 0x3fe0_0000_0000_0000,
{
}

/// A duration that is not negative is kept; what is negative, or not a number, is
/// no time at all.
pub proof fn durations_are_not_negative(bits: u64)
    ensures
        bits <= 0x7ff0_0000_0000_0000 ==> not_negative(bits) == bits,
        bits > 0x7ff0_0000_0000_0000 ==> not_negative(bits) == 0,
{
}

/// An entry of a trace is known by what it says.
pub proof fn steps_say_what_their_entries_do(event: TraceEvent)
    ensures
        event.step().id == event.id.0,
        event.step().ts_ns == event.ts_ns,
        event.step().actor == event.actor,
        event.step().action == event.action@,
        event.step().target == event.target,
{
}

/// An edge leads from its source to its target and nowhere else, and what holds
/// of no edges gains exactly that with each edge.
pub proof fn edges_lead_from_source_to_target(links: Seq<Link>, link: Link, a: u32, b: u32)
    ensures
        !leads(Seq::<Link>::empty(), a, b),
        leads(links.push(link), a, b) <==> leads(links, a, b) || (link.from == a && link.to == b),
        !is_end(Seq::<Link>::empty(), a),
        is_end(links.push(link), a) <==> is_end(links, a) || link.from == a || link.to == a,
{
    let more = links.push(link);
    assert(more[links.len() as int] == link);
    if leads(links, a, b) {
        let i = choose|i: int|
            0 <= i < links.len() && (#[trigger] links[i]).from == a && links[i].to == b;
        assert(more[i] == links[i]);
    }
    if is_end(links, a) {
        let i = choose|i: int|
            0 <= i < links.len() && ((#[trigger] links[i]).from == a || links[i].to == a);
        assert(more[i] == links[i]);
    }
    if leads(more, a, b) {
        let i = choose|i: int|
            0 <= i < more.len() && (#[trigger] more[i]).from == a && more[i].to == b;
        if i < links.len() {
            assert(links[i] == more[i]);
        }
    }
    if is_end(more, a) {
        let i = choose|i: int|
            0 <= i < more.len() && ((#[trigger] more[i]).from == a || more[i].to == a);
        if i < links.len() {
            assert(links[i] == more[i]);
        }
    }
}

/// A failure spreads along edges only: what is reached from elsewhere is the
/// target of an edge from something reached.
pub proof fn nothing_is_reached_but_by_edges(links: Seq<Link>, a: u32, b: u32)
    requires
        reaches(links, a, b),
        a != b,
    ensures
        exists|c: u32| reaches(links, a, c) && #[trigger] leads(links, c, b),
{
    let path = choose|path: Seq<u32>|
        path.len() > 0 && path[0] == a && path.last() == b && #[trigger] super::compose::is_path(
            links,
            path,
        );
    let front = path.drop_last();
    assert forall|i: int| 0 <= i < front.len() - 1 implies leads(
        links,
        #[trigger] front[i],
        front[i + 1],
    ) by {
        assert(leads(links, path[i], path[i + 1]));
    }
    assert(super::compose::is_path(links, front));
    let c = front.last();
    assert(front[0] == a);
    assert(reaches(links, a, c));
    assert(path[path.len() - 2] == c);
    assert(leads(links, path[path.len() - 2], path[path.len() - 2 + 1]));
}

/// A path is reduced to the extension of its last component; without one it says
/// nothing.
pub proof fn paths_are_reduced_to_their_extensions(
    folder: Seq<char>,
    separator: char,
    stem: Seq<char>,
    extension: Seq<char>,
)
    requires
        separator == '\\' || separator == '/',
        !stem.contains('\\') && !stem.contains('/'),
        !extension.contains('\\') && !extension.contains('/') && !extension.contains('.'),
    ensures
        extension.len() > 0 ==> bucket(folder + seq![separator] + (stem + seq!['.'] + extension))
            == seq!['.'] + extension,
        extension.len() > 0 ==> bucket(stem + seq!['.'] + extension) == seq!['.'] + extension,
        bucket(folder + seq![separator] + (stem + seq!['.'])) == "unknown"@,
        !stem.contains('.') ==> bucket(folder + seq![separator] + stem) == "unknown"@,
{
    let last = stem + seq!['.'] + extension;
    lemma_last_component(folder, separator, last, stem, extension);
    lemma_tail(last, stem, extension);
    let none = Seq::<char>::empty();
    let bare = stem + seq!['.'];
    assert(bare == stem + seq!['.'] + none);
    lemma_last_component(folder, separator, bare, stem, none);
    lemma_tail(bare, stem, none);
    let path = folder + seq![separator] + stem;
    lemma_last_of(path, '\\', '/');
    assert(path[folder.len() as int] == separator);
    let at = last_of(path, '\\', '/');
    if at > folder.len() {
        assert(stem.contains(stem[at - folder.len() - 1]));
    }
    assert(path.skip(at + 1) == stem);
    lemma_last_of(stem, '.', '.');
    let dot = last_of(stem, '.', '.');
    if dot >= 0 {
        assert(stem.contains(stem[dot]));
    }
}

proof fn lemma_last_component(
    folder: Seq<char>,
    separator: char,
    last: Seq<char>,
    stem: Seq<char>,
    extension: Seq<char>,
)
    requires
        separator == '\\' || separator == '/',
        last == stem + seq!['.'] + extension,
        !stem.contains('\\') && !stem.contains('/'),
        !extension.contains('\\') && !extension.contains('/'),
    ensures
        ({
            let path = folder + seq![separator] + last;
            path.skip(last_of(path, '\\', '/') + 1) == last
        }),
        last.skip(last_of(last, '\\', '/') + 1) == last,
{
    let path = folder + seq![separator] + last;
    lemma_last_of(path, '\\', '/');
    lemma_last_of(last, '\\', '/');
    assert(path[folder.len() as int] == separator);
    assert forall|i: int| 0 <= i < last.len() implies last[i] != '\\' && last[i] != '/' by {
        if i < stem.len() {
            assert(stem.contains(last[i]));
        } else if i > stem.len() {
            assert(last[i] == extension[i - stem.len() - 1]);
            assert(extension.contains(last[i]));
        }
    }
    let at = last_of(path, '\\', '/');
    if at > folder.len() {
        assert(path[at] == last[at - folder.len() - 1]);
    }
    assert(path.skip(at + 1) == last);
    assert(last.skip(0) == last);
}

proof fn lemma_tail(last: Seq<char>, stem: Seq<char>, extension: Seq<char>)
    requires
        last == stem + seq!['.'] + extension,
        !extension.contains('.'),
    ensures
        last_of(last, '.', '.') == stem.len(),
        last.skip(stem.len() as int) == seq!['.'] + extension,
{
    lemma_last_of(last, '.', '.');
    assert(last[stem.len() as int] == '.');
    let at = last_of(last, '.', '.');
    if at > stem.len() {
        assert(last[at] == extension[at - stem.len() - 1]);
        assert(extension.contains(last[at]));
    }
    assert(last.skip(stem.len() as int) == seq!['.'] + extension);
}

/// A detail is minimised word by word: a word that is no path is kept, a path is
/// reduced, and the spaces between words stay.
pub proof fn details_are_minimised_word_by_word(word: Seq<char>, rest: Seq<char>)
    requires
        !word.contains(' '),
    ensures
        !word.contains('\\') && !word.contains('/') ==> minimised(word) == word,
        word.contains('\\') || word.contains('/') ==> minimised(word) == bucket(word),
        minimised(word + seq![' '] + rest) == minimised(word) + seq![' '] + minimised(rest),
{
    let whole = word + seq![' '] + rest;
    lemma_index_from(whole, ' ', 0);
    lemma_index_from(word, ' ', 0);
    assert(whole[word.len() as int] == ' ');
    let at = index_from(whole, ' ', 0);
    if at < word.len() {
        assert(whole[at] == word[at]);
        assert(word.contains(word[at]));
    }
    assert(whole.take(at) == word);
    assert(whole.skip(at + 1) == rest);
    let none = index_from(word, ' ', 0);
    if none < word.len() {
        assert(word.contains(word[none]));
    }
    assert(pieces(word, ' ') == seq![word]);
    let parts = pieces(rest, ' ');
    assert(pieces(whole, ' ') == seq![word] + parts);
    assert(parts.len() >= 1);
    lemma_kept_behind(word, parts, parts.len());
}

proof fn lemma_kept_behind(word: Seq<char>, parts: Seq<Seq<char>>, n: nat)
    requires
        1 <= n <= parts.len(),
    ensures
        kept_tokens(seq![word] + parts, n + 1) == kept_token(word) + seq![' '] + kept_tokens(
            parts,
            n,
        ),
    decreases n,
{
    reveal_strlit(" ");
    assert(" "@ == seq![' ']);
    let all = seq![word] + parts;
    assert(all[n as int] == parts[n - 1]);
    assert(all[0] == word);
    assert(kept_tokens(all, 1) == kept_token(word));
    if n > 1 {
        lemma_kept_behind(word, parts, (n - 1) as nat);
        let last = kept_token(parts[n - 1]);
        let front = kept_tokens(parts, (n - 1) as nat);
        assert(kept_tokens(all, n + 1) == kept_token(word) + seq![' '] + front + seq![' '] + last);
        assert(kept_token(word) + seq![' '] + front + seq![' '] + last == kept_token(word) + seq![
            ' ',
        ] + (front + seq![' '] + last));
    } else {
        assert(kept_tokens(parts, 1) == kept_token(parts[0]));
    }
}

/// An entity is of a kind where it is known as that, and of a label where it is
/// known under exactly that one; what is not known is of none.
pub proof fn entities_are_what_they_are_known_as(
    known: Map<u64, Entity>,
    id: u64,
    kind: EntityKind,
    label: Seq<char>,
)
    ensures
        known.contains_key(id) ==> (is_kind(known, id, kind) <==> known[id].kind == kind),
        known.contains_key(id) ==> (is_labelled(known, id, kind, label) <==> known[id].kind == kind
            && known[id].label@ == label),
        !known.contains_key(id) ==> !is_kind(known, id, kind) && !is_labelled(
            known,
            id,
            kind,
            label,
        ),
{
}

} // verus!
