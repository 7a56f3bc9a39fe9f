//! Which of the available attributes the configuration selects.

use crate::config::types::{lemma_referents_push, referents};
use crate::config::{BuildEntry, BuildsConfig, GarnixConfig};
use crate::error::GarnixError;
use crate::name_set::{strictly_sorted, NameSet};
use crate::text::{lemma_segments_push, rows, same_chars, segments, split_segments, texts};
use vstd::prelude::*;
use vstd::string::StringExecFns;

verus! {

/// Whether one segment of a pattern accepts one segment of an attribute: the
/// pattern's segment is the wildcard `*`, or the two are the same text.
pub open spec fn segment_matches(pattern_segment: Seq<char>, attr_segment: Seq<char>) -> bool {
    pattern_segment == seq!['*'] || pattern_segment == attr_segment
}

/// What matching `pattern` against `attr` gives: `Some(true)` or
/// `Some(false)`, or `None` where the pattern is malformed.
///
/// A pattern and an attribute with different numbers of segments do not
/// match, whatever the pattern looks like. With equal numbers, the pattern
/// must have two or three segments, and then matches if every segment does.
pub open spec fn match_outcome(pattern: Seq<char>, attr: Seq<char>) -> Option<bool> {
    let wanted = segments(pattern);
    let given = segments(attr);
    if wanted.len() != given.len() {
        Some(false)
    } else if wanted.len() != 2 && wanted.len() != 3 {
        None
    } else {
        Some(all_segments_match(wanted, given))
    }
}

/// Whether every segment of the pattern accepts the attribute's segment at
/// the same place.
pub open spec fn all_segments_match(wanted: Seq<Seq<char>>, given: Seq<Seq<char>>) -> bool {
    forall|i: int| 0 <= i < wanted.len() ==> segment_matches(#[trigger] wanted[i], given[i])
}

/// The detail of the error for a malformed pattern.
pub open spec fn invalid_pattern_message(pattern: Seq<char>) -> Seq<char> {
    "Invalid pattern format '"@ + pattern + "', must be 'x.y' or 'x.y.z'"@
}

/// Whether `result` reports `pattern` as malformed.
pub open spec fn reports_pattern<T>(result: Result<T, GarnixError>, pattern: Seq<char>) -> bool {
    result matches Err(GarnixError::PatternMatch(detail)) && detail@ == invalid_pattern_message(
        pattern,
    )
}

/// Whether `pattern` is malformed with respect to one of the `available`
/// attributes.
pub open spec fn offends(pattern: Seq<char>, available: Seq<Seq<char>>) -> bool {
    exists|j: int| 0 <= j < available.len() && match_outcome(pattern, #[trigger] available[j]) is None
}

/// The first of `patterns` that is malformed with respect to an available
/// attribute, if there is one.
pub open spec fn first_offender(patterns: Seq<Seq<char>>, available: Seq<Seq<char>>) -> Option<
    Seq<char>,
>
    decreases patterns.len(),
{
    if patterns.len() == 0 {
        None
    } else if offends(patterns.first(), available) {
        Some(patterns.first())
    } else {
        first_offender(patterns.drop_first(), available)
    }
}

/// Whether one of `patterns` matches `name`.
pub open spec fn selected_by(patterns: Seq<Seq<char>>, name: Seq<char>) -> bool {
    exists|k: int| 0 <= k < patterns.len() && match_outcome(#[trigger] patterns[k], name) == Some(true)
}

/// The available attributes that one of `patterns` matches.
pub open spec fn matching_names(patterns: Seq<Seq<char>>, available: Seq<Seq<char>>) -> Set<
    Seq<char>,
> {
    Set::new(|name: Seq<char>| available.contains(name) && selected_by(patterns, name))
}

/// The matched set after a rule's include patterns were applied.
pub open spec fn after_includes(
    matched: Set<Seq<char>>,
    patterns: Seq<Seq<char>>,
    available: Seq<Seq<char>>,
) -> Set<Seq<char>> {
    matched.union(matching_names(patterns, available))
}

/// The matched set after a rule's exclude patterns were applied.
pub open spec fn after_excludes(
    matched: Set<Seq<char>>,
    patterns: Seq<Seq<char>>,
    available: Seq<Seq<char>>,
) -> Set<Seq<char>> {
    matched.difference(matching_names(patterns, available))
}

/// Whether a rule is for the branch `branch`.
pub open spec fn applies(entry: BuildEntry, branch: Seq<char>) -> bool {
    match entry.branch {
        None => true,
        Some(wanted) => wanted@ == branch,
    }
}

/// The rules that are for the branch `branch`, in their configured order.
pub open spec fn applicable(rules: Seq<BuildEntry>, branch: Seq<char>) -> Seq<BuildEntry> {
    rules.filter(|entry: BuildEntry| applies(entry, branch))
}

/// One rule applied to the matched set: first its include patterns, then its
/// exclude patterns. `Err` holds the first malformed pattern met.
pub open spec fn apply_rule(
    matched: Set<Seq<char>>,
    entry: BuildEntry,
    available: Seq<Seq<char>>,
) -> Result<Set<Seq<char>>, Seq<char>> {
    match first_offender(texts(entry.includes@), available) {
        Some(pattern) => Err(pattern),
        None => match first_offender(texts(entry.exclude@), available) {
            Some(pattern) => Err(pattern),
            None => Ok(
                after_excludes(
                    after_includes(matched, texts(entry.includes@), available),
                    texts(entry.exclude@),
                    available,
                ),
            ),
        },
    }
}

/// The rules applied one after the other to a set that starts empty. A later
/// rule sees what the earlier ones left, so it can bring back an attribute
/// that an earlier rule excluded.
pub open spec fn apply_rules(rules: Seq<BuildEntry>, available: Seq<Seq<char>>) -> Result<
    Set<Seq<char>>,
    Seq<char>,
>
    decreases rules.len(),
{
    if rules.len() == 0 {
        Ok(Set::empty())
    } else {
        match apply_rules(rules.drop_last(), available) {
            Err(pattern) => Err(pattern),
            Ok(matched) => apply_rule(matched, rules.last(), available),
        }
    }
}

/// The attributes selected for `branch`: none without a configuration, else
/// what the applicable rules leave.
pub open spec fn selection(
    config: Option<GarnixConfig>,
    available: Seq<Seq<char>>,
    branch: Seq<char>,
) -> Result<Set<Seq<char>>, Seq<char>> {
    match config {
        None => Ok(Set::empty()),
        Some(config) => apply_rules(applicable(config.builds.rules(), branch), available),
    }
}

/// An attribute and a pattern with different numbers of segments never
/// match, and that is no error, however many segments the pattern has.
pub proof fn lemma_arity_mismatch(pattern: Seq<char>, attr: Seq<char>)
    requires
        segments(pattern).len() != segments(attr).len(),
    ensures
        match_outcome(pattern, attr) == Some(false),
{
}

/// The segments of the pattern made of three wildcards, and of the one made
/// of two.
pub proof fn lemma_wildcard_segments()
    ensures
        segments("*.*.*"@) == seq![seq!['*'], seq!['*'], seq!['*']],
        segments("*.*"@) == seq![seq!['*'], seq!['*']],
{
    let empty = Seq::<char>::empty();
    let one = empty.push('*');
    let one_dot = one.push('.');
    let two = one_dot.push('*');
    let two_dot = two.push('.');
    let three = two_dot.push('*');
    assert(segments(empty) =~= seq![empty]);
    lemma_segments_push(empty, '*');
    assert(segments(one) =~= seq![seq!['*']]);
    lemma_segments_push(one, '.');
    assert(segments(one_dot) =~= seq![seq!['*'], empty]);
    lemma_segments_push(one_dot, '*');
    assert(segments(two) =~= seq![seq!['*'], seq!['*']]);
    lemma_segments_push(two, '.');
    assert(segments(two_dot) =~= seq![seq!['*'], seq!['*'], empty]);
    lemma_segments_push(two_dot, '*');
    assert(segments(three) =~= seq![seq!['*'], seq!['*'], seq!['*']]);
    reveal_strlit("*.*.*");
    reveal_strlit("*.*");
    assert("*.*.*"@ =~= three);
    assert("*.*"@ =~= two);
}

/// The pattern `*.*.*` matches every attribute of three segments, and `*.*`
/// every attribute of two.
pub proof fn lemma_wildcards_match_all(attr: Seq<char>)
    ensures
        segments(attr).len() == 3 ==> match_outcome("*.*.*"@, attr) == Some(true),
        segments(attr).len() == 2 ==> match_outcome("*.*"@, attr) == Some(true),
{
    lemma_wildcard_segments();
}

/// A pattern without wildcards matches exactly the attribute that is spelled
/// like it, among the attributes of two or three segments.
pub proof fn lemma_literal_pattern(pattern: Seq<char>, attr: Seq<char>)
    requires
        segments(pattern).len() == 2 || segments(pattern).len() == 3,
        forall|i: int| 0 <= i < segments(pattern).len() ==> segments(pattern)[i] != seq!['*'],
    ensures
        match_outcome(pattern, attr) == Some(segments(pattern) == segments(attr)),
{
    let wanted = segments(pattern);
    let given = segments(attr);
    if wanted.len() == given.len() {
        if all_segments_match(wanted, given) {
            assert forall|i: int| 0 <= i < wanted.len() implies wanted[i] == given[i] by {
                assert(segment_matches(wanted[i], given[i]));
            }
            assert(wanted =~= given);
        }
    }
}

/// Only the elements of the pattern list and of the attribute list count for
/// what a list of patterns matches, not their order nor how often one occurs.
pub proof fn lemma_order_irrelevant(
    patterns: Seq<Seq<char>>,
    available: Seq<Seq<char>>,
    reordered_patterns: Seq<Seq<char>>,
    reordered_available: Seq<Seq<char>>,
)
    requires
        forall|pattern: Seq<char>|
            patterns.contains(pattern) <==> reordered_patterns.contains(pattern),
        forall|name: Seq<char>| available.contains(name) <==> reordered_available.contains(name),
    ensures
        matching_names(patterns, available) == matching_names(
            reordered_patterns,
            reordered_available,
        ),
{
    assert forall|name: Seq<char>| selected_by(patterns, name) <==> selected_by(
        reordered_patterns,
        name,
    ) by {
        if selected_by(patterns, name) {
            let k = choose|k: int|
                0 <= k < patterns.len() && match_outcome(#[trigger] patterns[k], name) == Some(
                    true,
                );
            assert(patterns.contains(patterns[k]));
            let m = choose|m: int|
                0 <= m < reordered_patterns.len() && reordered_patterns[m] == patterns[k];
            assert(match_outcome(reordered_patterns[m], name) == Some(true));
        }
        if selected_by(reordered_patterns, name) {
            let k = choose|k: int|
                0 <= k < reordered_patterns.len() && match_outcome(
                    #[trigger] reordered_patterns[k],
                    name,
                ) == Some(true);
            assert(reordered_patterns.contains(reordered_patterns[k]));
            let m = choose|m: int| 0 <= m < patterns.len() && patterns[m] == reordered_patterns[k];
            assert(match_outcome(patterns[m], name) == Some(true));
        }
    }
    assert(matching_names(patterns, available) =~= matching_names(
        reordered_patterns,
        reordered_available,
    ));
}

/// The last rule decides over what it names: an available attribute that it
/// excludes is not selected, and one that it includes and does not exclude
/// is selected, whatever the rules before it did.
pub proof fn lemma_last_rule_decides(
    rules: Seq<BuildEntry>,
    available: Seq<Seq<char>>,
    name: Seq<char>,
)
    requires
        rules.len() > 0,
        available.contains(name),
        apply_rules(rules, available) is Ok,
    ensures
        ({
            let last = rules.last();
            let excluded = selected_by(texts(last.exclude@), name);
            let included = selected_by(texts(last.includes@), name);
            apply_rules(rules, available) matches Ok(selected) && (excluded ==> !selected.contains(
                name,
            )) && (included && !excluded ==> selected.contains(name))
        }),
{
}

/// A rule that is not for the branch changes nothing: the selection is that
/// of the applicable rules alone.
pub proof fn lemma_other_branch_ignored(
    rules: Seq<BuildEntry>,
    entry: BuildEntry,
    branch: Seq<char>,
)
    requires
        !applies(entry, branch),
    ensures
        applicable(rules.push(entry), branch) == applicable(rules, branch),
{
    reveal(Seq::filter);
    assert(rules.push(entry).drop_last() =~= rules);
}

/// Whatever the rules select is an available attribute that an include
/// pattern of one of the rules matches.
pub proof fn lemma_selected_was_included(
    rules: Seq<BuildEntry>,
    available: Seq<Seq<char>>,
    name: Seq<char>,
)
    requires
        apply_rules(rules, available) matches Ok(selected) && selected.contains(name),
    ensures
        available.contains(name),
        exists|i: int|
            0 <= i < rules.len() && selected_by(texts((#[trigger] rules[i]).includes@), name),
    decreases rules.len(),
{
    let earlier = rules.drop_last();
    let before = apply_rules(earlier, available)->Ok_0;
    if before.contains(name) {
        lemma_selected_was_included(earlier, available, name);
        let i = choose|i: int|
            0 <= i < earlier.len() && selected_by(texts((#[trigger] earlier[i]).includes@), name);
        assert(rules[i] == earlier[i]);
    } else {
        assert(selected_by(texts(rules[rules.len() - 1].includes@), name));
    }
}

/// Branch scoping: whatever is selected for a branch is matched by an
/// include pattern of a rule that is for that branch or for every branch.
pub proof fn lemma_selection_is_scoped(
    config: GarnixConfig,
    available: Seq<Seq<char>>,
    branch: Seq<char>,
    name: Seq<char>,
)
    requires
        selection(Some(config), available, branch) matches Ok(selected) && selected.contains(name),
    ensures
        available.contains(name),
        exists|i: int|
            0 <= i < config.builds.rules().len() && applies(
                #[trigger] config.builds.rules()[i],
                branch,
            ) && selected_by(texts(config.builds.rules()[i].includes@), name),
{
    let rules = config.builds.rules();
    let wanted = |entry: BuildEntry| applies(entry, branch);
    let scoped = rules.filter(wanted);
    lemma_selected_was_included(scoped, available, name);
    let k = choose|k: int|
        0 <= k < scoped.len() && selected_by(texts((#[trigger] scoped[k]).includes@), name);
    rules.lemma_filter_pred(wanted, k);
    assert(scoped.contains(scoped[k]));
    rules.lemma_filter_contains_rev(wanted, scoped[k]);
    let i = choose|i: int| 0 <= i < rules.len() && rules[i] == scoped[k];
    assert(applies(rules[i], branch));
}

/// Patterns that are well formed up to `k` do not decide the first offender.
pub proof fn lemma_first_offender_skip(
    patterns: Seq<Seq<char>>,
    available: Seq<Seq<char>>,
    k: int,
)
    requires
        0 <= k <= patterns.len(),
        forall|m: int| 0 <= m < k ==> !offends(#[trigger] patterns[m], available),
    ensures
        first_offender(patterns, available) == first_offender(patterns.skip(k), available),
    decreases k,
{
    if k == 0 {
        assert(patterns.skip(0) =~= patterns);
    } else {
        let rest = patterns.drop_first();
        assert(!offends(patterns[0], available));
        assert forall|m: int| 0 <= m < k - 1 implies !offends(#[trigger] rest[m], available) by {
            assert(rest[m] == patterns[m + 1]);
        }
        lemma_first_offender_skip(rest, available, k - 1);
        assert(rest.skip(k - 1) =~= patterns.skip(k));
    }
}

/// Once a rule has met a malformed pattern, the rules after it change nothing.
pub proof fn lemma_apply_rules_error(rules: Seq<BuildEntry>, available: Seq<Seq<char>>, k: int)
    requires
        0 <= k <= rules.len(),
        apply_rules(rules.take(k), available) is Err,
    ensures
        apply_rules(rules, available) == apply_rules(rules.take(k), available),
    decreases rules.len() - k,
{
    if k == rules.len() {
        assert(rules.take(k) =~= rules);
    } else {
        assert(rules.take(k + 1).drop_last() =~= rules.take(k));
        lemma_apply_rules_error(rules, available, k + 1);
    }
}

/// Matches attributes against the rules that are for one branch.
pub struct AttributeMatcher {
    current_branch: String,
}

impl AttributeMatcher {
    /// The branch that the rules are held against.
    pub closed spec fn branch(&self) -> Seq<char> {
        self.current_branch@
    }

    /// A matcher for the rules of `current_branch`.
    pub fn new(current_branch: String) -> (matcher: Self)
        ensures
            matcher.branch() == current_branch@,
    {
        Self { current_branch }
    }

    /// The attributes to build: those that the applicable rules select among
    /// `available_attrs`, in lexicographic order and each once. Without a
    /// configuration nothing is selected. A malformed pattern in an applicable
    /// rule fails the whole call, with the first such pattern in the error.
    #[verifier::loop_isolation(false)]
    pub fn get_matching_attributes(
        &self,
        config: &Option<GarnixConfig>,
        available_attrs: &[String],
    ) -> (selected: Result<Vec<String>, GarnixError>)
        ensures
            match selection(*config, texts(available_attrs@), self.branch()) {
                Ok(names) => selected matches Ok(listed) && strictly_sorted(texts(listed@))
                    && forall|name: Seq<char>|
                    texts(listed@).contains(name) <==> names.contains(name),
                Err(pattern) => reports_pattern(selected, pattern),
            },
            *config is None ==> (selected matches Ok(listed) && listed@.len() == 0),
    {
        let settings = match config {
            None => {
                let nothing: Vec<String> = Vec::new();
                proof {
                    assert forall|name: Seq<char>| !texts(nothing@).contains(name) by {}
                }
                return Ok(nothing);
            },
            Some(settings) => settings,
        };
        let ghost available = texts(available_attrs@);
        let mut matched_attrs = NameSet::new();
        let applicable_entries = self.get_applicable_build_entries(&settings.builds);
        let ghost rules = referents(applicable_entries@);
        let mut i: usize = 0;
        while i < applicable_entries.len()
            invariant
                i <= applicable_entries.len(),
                rules == referents(applicable_entries@),
                available == texts(available_attrs@),
                matched_attrs.valid(),
                apply_rules(rules.take(i as int), available) == Ok::<Set<Seq<char>>, Seq<char>>(
                    matched_attrs@,
                ),
            decreases applicable_entries.len() - i,
        {
            let entry = applicable_entries[i];
            proof {
                assert(rules.take(i + 1).drop_last() =~= rules.take(i as int));
                assert(rules.take(i + 1).last() == *entry);
            }
            match self.apply_include_patterns(
                entry.includes.as_slice(),
                available_attrs,
                &mut matched_attrs,
            ) {
                Ok(()) => {},
                Err(error) => {
                    proof {
                        lemma_apply_rules_error(rules, available, i + 1);
                    }
                    return Err(error);
                },
            }
            match self.apply_exclude_patterns(
                entry.exclude.as_slice(),
                available_attrs,
                &mut matched_attrs,
            ) {
                Ok(()) => {},
                Err(error) => {
                    proof {
                        lemma_apply_rules_error(rules, available, i + 1);
                    }
                    return Err(error);
                },
            }
            i += 1;
        }
        proof {
            assert(rules.take(i as int) =~= rules);
            matched_attrs.lemma_listing();
        }
        Ok(matched_attrs.into_sorted())
    }

    /// The rules that are for the current branch: those that name it, and
    /// those that name no branch.
    pub fn get_applicable_build_entries<'a>(&self, builds: &'a BuildsConfig) -> (found: Vec<
        &'a BuildEntry,
    >)
        ensures
            referents(found@) == applicable(builds.rules(), self.branch()),
    {
        let entries = builds.entries();
        let ghost rules = builds.rules();
        let mut found: Vec<&'a BuildEntry> = Vec::new();
        let mut i: usize = 0;
        while i < entries.len()
            invariant
                i <= entries.len(),
                referents(entries@) == rules,
                referents(found@) == applicable(rules.take(i as int), self.branch()),
            decreases entries.len() - i,
        {
            let entry = entries[i];
            proof {
                assert(rules.take(i + 1).drop_last() =~= rules.take(i as int));
                assert(rules.take(i + 1).last() == *entry) by {
                    assert(referents(entries@)[i as int] == *entries@[i as int]);
                }
            }
            let fits = match &entry.branch {
                None => true,
                Some(branch) => *branch == self.current_branch,
            };
            let ghost earlier = found@;
            proof {
                reveal(Seq::filter);
            }
            if fits {
                found.push(entry);
                proof {
                    lemma_referents_push(earlier, entry);
                }
            }
            i += 1;
        }
        proof {
            assert(rules.take(i as int) =~= rules);
        }
        found
    }

    /// Whether `pattern` matches `attr`. Both are split on `.`; a segment of
    /// the pattern matches a segment of the attribute if it is `*` or the same
    /// text. Different numbers of segments never match. A pattern that has as
    /// many segments as the attribute, but neither two nor three, is an error.
    pub fn matches_pattern(&self, pattern: &str, attr: &str) -> (outcome: Result<
        bool,
        GarnixError,
    >)
        ensures
            match match_outcome(pattern@, attr@) {
                Some(matched) => outcome == Ok::<bool, GarnixError>(matched),
                None => reports_pattern(outcome, pattern@),
            },
            segments(pattern@).len() != segments(attr@).len() ==> outcome == Ok::<
                bool,
                GarnixError,
            >(false),
    {
        let pattern_parts = split_segments(pattern);
        let attr_parts = split_segments(attr);
        let ghost wanted = segments(pattern@);
        let ghost given = segments(attr@);
        if pattern_parts.len() != attr_parts.len() {
            return Ok(false);
        }
        if pattern_parts.len() != 2 && pattern_parts.len() != 3 {
            let mut detail = String::from_str("Invalid pattern format '");
            detail.append(pattern);
            detail.append("', must be 'x.y' or 'x.y.z'");
            return Err(GarnixError::PatternMatch(detail));
        }
        let mut i: usize = 0;
        while i < pattern_parts.len()
            invariant
                i <= pattern_parts.len(),
                pattern_parts.len() == attr_parts.len(),
                pattern_parts.len() == 2 || pattern_parts.len() == 3,
                wanted == segments(pattern@),
                given == segments(attr@),
                rows(pattern_parts@) == wanted,
                rows(attr_parts@) == given,
                wanted.len() == pattern_parts.len(),
                given.len() == attr_parts.len(),
                forall|k: int| 0 <= k < i ==> segment_matches(#[trigger] wanted[k], given[k]),
            decreases pattern_parts.len() - i,
        {
            let pattern_part = &pattern_parts[i];
            let attr_part = &attr_parts[i];
            proof {
                assert(rows(pattern_parts@)[i as int] == pattern_part@);
                assert(rows(attr_parts@)[i as int] == attr_part@);
            }
            let wildcard = pattern_part.len() == 1 && pattern_part[0] == '*';
            proof {
                assert(seq!['*'].len() == 1 && seq!['*'][0] == '*');
                if wildcard {
                    assert(pattern_part@ =~= seq!['*']);
                }
            }
            if !wildcard && !same_chars(pattern_part, attr_part) {
                proof {
                    assert(!segment_matches(wanted[i as int], given[i as int]));
                }
                return Ok(false);
            }
            i += 1;
        }
        Ok(true)
    }

    /// Adds to `matched_attrs` every available attribute that one of
    /// `patterns` matches. At the first malformed pattern it stops with the
    /// error; the set then holds what was added before.
    #[verifier::loop_isolation(false)]
    fn apply_include_patterns(
        &self,
        patterns: &[String],
        available_attrs: &[String],
        matched_attrs: &mut NameSet,
    ) -> (done: Result<(), GarnixError>)
        requires
            old(matched_attrs).valid(),
        ensures
            final(matched_attrs).valid(),
            old(matched_attrs)@.subset_of(final(matched_attrs)@),
            final(matched_attrs)@.subset_of(
                after_includes(old(matched_attrs)@, texts(patterns@), texts(available_attrs@)),
            ),
            match first_offender(texts(patterns@), texts(available_attrs@)) {
                None => done is Ok && final(matched_attrs)@ == after_includes(
                    old(matched_attrs)@,
                    texts(patterns@),
                    texts(available_attrs@),
                ),
                Some(pattern) => reports_pattern(done, pattern),
            },
    {
        let ghost wanted = texts(patterns@);
        let ghost available = texts(available_attrs@);
        let ghost start = matched_attrs@;
        let mut i: usize = 0;
        proof {
            assert(matched_attrs@ =~= after_includes(start, wanted.take(0), available));
        }
        while i < patterns.len()
            invariant
                i <= patterns.len(),
                wanted == texts(patterns@),
                available == texts(available_attrs@),
                matched_attrs.valid(),
                forall|m: int| 0 <= m < i ==> !offends(#[trigger] wanted[m], available),
                matched_attrs@ == after_includes(start, wanted.take(i as int), available),
            decreases patterns.len() - i,
        {
            let pattern = &patterns[i];
            let ghost earlier = matched_attrs@;
            let mut j: usize = 0;
            proof {
                assert(matched_attrs@ =~= earlier.union(
                    matching_names(seq![pattern@], available.take(0)),
                ));
            }
            while j < available_attrs.len()
                invariant
                    j <= available_attrs.len(),
                    available == texts(available_attrs@),
                    matched_attrs.valid(),
                    forall|n: int|
                        0 <= n < j ==> match_outcome(pattern@, #[trigger] available[n]) is Some,
                    matched_attrs@ == earlier.union(
                        matching_names(seq![pattern@], available.take(j as int)),
                    ),
                decreases available_attrs.len() - j,
            {
                let attr = &available_attrs[j];
                let ghost so_far = matched_attrs@;
                match self.matches_pattern(pattern.as_str(), attr.as_str()) {
                    Ok(matched) => {
                        if matched {
                            matched_attrs.insert(attr.clone());
                        }
                        proof {
                            lemma_names_one_more(pattern@, available, j as int);
                            assert(matched_attrs@ =~= earlier.union(
                                matching_names(seq![pattern@], available.take(j + 1)),
                            ));
                        }
                    },
                    Err(error) => {
                        proof {
                            assert(match_outcome(wanted[i as int], available[j as int]) is None);
                            lemma_first_offender_skip(wanted, available, i as int);
                            lemma_names_grow(wanted, i as int, available, j as int);
                        }
                        return Err(error);
                    },
                }
                j += 1;
            }
            proof {
                assert(available.take(j as int) =~= available);
                lemma_names_next_pattern(wanted, i as int, available);
                assert(matched_attrs@ =~= after_includes(start, wanted.take(i + 1), available));
            }
            i += 1;
        }
        proof {
            assert(wanted.take(i as int) =~= wanted);
            lemma_first_offender_skip(wanted, available, i as int);
        }
        Ok(())
    }

    /// Takes out of `matched_attrs` every available attribute that one of
    /// `patterns` matches. At the first malformed pattern it stops with the
    /// error; the set then lacks what was taken out before.
    #[verifier::loop_isolation(false)]
    fn apply_exclude_patterns(
        &self,
        patterns: &[String],
        available_attrs: &[String],
        matched_attrs: &mut NameSet,
    ) -> (done: Result<(), GarnixError>)
        requires
            old(matched_attrs).valid(),
        ensures
            final(matched_attrs).valid(),
            final(matched_attrs)@.subset_of(old(matched_attrs)@),
            after_excludes(
                old(matched_attrs)@,
                texts(patterns@),
                texts(available_attrs@),
            ).subset_of(final(matched_attrs)@),
            match first_offender(texts(patterns@), texts(available_attrs@)) {
                None => done is Ok && final(matched_attrs)@ == after_excludes(
                    old(matched_attrs)@,
                    texts(patterns@),
                    texts(available_attrs@),
                ),
                Some(pattern) => reports_pattern(done, pattern),
            },
    {
        let ghost wanted = texts(patterns@);
        let ghost available = texts(available_attrs@);
        let ghost start = matched_attrs@;
        let mut i: usize = 0;
        proof {
            assert(matched_attrs@ =~= after_excludes(start, wanted.take(0), available));
        }
        while i < patterns.len()
            invariant
                i <= patterns.len(),
                wanted == texts(patterns@),
                available == texts(available_attrs@),
                matched_attrs.valid(),
                forall|m: int| 0 <= m < i ==> !offends(#[trigger] wanted[m], available),
                matched_attrs@ == after_excludes(start, wanted.take(i as int), available),
            decreases patterns.len() - i,
        {
            let pattern = &patterns[i];
            let ghost earlier = matched_attrs@;
            let mut j: usize = 0;
            proof {
                assert(matched_attrs@ =~= earlier.difference(
                    matching_names(seq![pattern@], available.take(0)),
                ));
            }
            while j < available_attrs.len()
                invariant
                    j <= available_attrs.len(),
                    available == texts(available_attrs@),
                    matched_attrs.valid(),
                    forall|n: int|
                        0 <= n < j ==> match_outcome(pattern@, #[trigger] available[n]) is Some,
                    matched_attrs@ == earlier.difference(
                        matching_names(seq![pattern@], available.take(j as int)),
                    ),
                decreases available_attrs.len() - j,
            {
                let attr = &available_attrs[j];
                match self.matches_pattern(pattern.as_str(), attr.as_str()) {
                    Ok(matched) => {
                        if matched {
                            matched_attrs.remove(attr.as_str());
                        }
                        proof {
                            lemma_names_one_more(pattern@, available, j as int);
                            assert(matched_attrs@ =~= earlier.difference(
                                matching_names(seq![pattern@], available.take(j + 1)),
                            ));
                        }
                    },
                    Err(error) => {
                        proof {
                            assert(match_outcome(wanted[i as int], available[j as int]) is None);
                            lemma_first_offender_skip(wanted, available, i as int);
                            lemma_names_grow(wanted, i as int, available, j as int);
                        }
                        return Err(error);
                    },
                }
                j += 1;
            }
            proof {
                assert(available.take(j as int) =~= available);
                lemma_names_next_pattern(wanted, i as int, available);
                assert(matched_attrs@ =~= after_excludes(start, wanted.take(i + 1), available));
            }
            i += 1;
        }
        proof {
            assert(wanted.take(i as int) =~= wanted);
            lemma_first_offender_skip(wanted, available, i as int);
        }
        Ok(())
    }
}

/// What one pattern matches among the first `j + 1` attributes: what it
/// matches among the first `j`, and the next attribute if it matches that.
proof fn lemma_names_one_more(pattern: Seq<char>, available: Seq<Seq<char>>, j: int)
    requires
        0 <= j < available.len(),
    ensures
        matching_names(seq![pattern], available.take(j + 1)) == if match_outcome(
            pattern,
            available[j],
        ) == Some(true) {
            matching_names(seq![pattern], available.take(j)).insert(available[j])
        } else {
            matching_names(seq![pattern], available.take(j))
        },
{
    let one = seq![pattern];
    let shorter = available.take(j);
    let longer = available.take(j + 1);
    assert(one[0] == pattern);
    assert forall|name: Seq<char>| longer.contains(name) <==> (shorter.contains(name) || name
        == available[j]) by {
        if longer.contains(name) {
            let n = choose|n: int| 0 <= n < longer.len() && longer[n] == name;
            if n < j {
                assert(shorter[n] == name);
            }
        }
        if shorter.contains(name) {
            let n = choose|n: int| 0 <= n < shorter.len() && shorter[n] == name;
            assert(longer[n] == name);
        }
        if name == available[j] {
            assert(longer[j] == name);
        }
    }
    if match_outcome(pattern, available[j]) == Some(true) {
        assert(selected_by(one, available[j]));
        assert(matching_names(one, longer) =~= matching_names(one, shorter).insert(available[j]));
    } else {
        assert(matching_names(one, longer) =~= matching_names(one, shorter));
    }
}

/// What the first `i + 1` patterns match: what the first `i` match, and what
/// the next one matches.
proof fn lemma_names_next_pattern(patterns: Seq<Seq<char>>, i: int, available: Seq<Seq<char>>)
    requires
        0 <= i < patterns.len(),
    ensures
        matching_names(patterns.take(i + 1), available) == matching_names(
            patterns.take(i),
            available,
        ).union(matching_names(seq![patterns[i]], available)),
{
    let shorter = patterns.take(i);
    let longer = patterns.take(i + 1);
    let one = seq![patterns[i]];
    assert forall|name: Seq<char>| selected_by(longer, name) <==> (selected_by(shorter, name)
        || selected_by(one, name)) by {
        if selected_by(longer, name) {
            let k = choose|k: int|
                0 <= k < longer.len() && match_outcome(#[trigger] longer[k], name) == Some(true);
            if k < i {
                assert(shorter[k] == longer[k]);
            } else {
                assert(one[0] == longer[k]);
            }
        }
        if selected_by(shorter, name) {
            let k = choose|k: int|
                0 <= k < shorter.len() && match_outcome(#[trigger] shorter[k], name) == Some(true);
            assert(longer[k] == shorter[k]);
        }
        if selected_by(one, name) {
            let k = choose|k: int|
                0 <= k < one.len() && match_outcome(#[trigger] one[k], name) == Some(true);
            assert(longer[i] == one[k]);
        }
    }
    assert(matching_names(longer, available) =~= matching_names(shorter, available).union(
        matching_names(one, available),
    ));
}

/// What the first `i` patterns match, and the pattern after them among the
/// first `j` attributes, is part of what all the patterns match.
proof fn lemma_names_grow(patterns: Seq<Seq<char>>, i: int, available: Seq<Seq<char>>, j: int)
    requires
        0 <= i < patterns.len(),
        0 <= j <= available.len(),
    ensures
        matching_names(patterns.take(i), available).subset_of(matching_names(patterns, available)),
        matching_names(seq![patterns[i]], available.take(j)).subset_of(
            matching_names(patterns, available),
        ),
{
    let shorter = patterns.take(i);
    let one = seq![patterns[i]];
    assert forall|name: Seq<char>| selected_by(shorter, name) || selected_by(
        one,
        name,
    ) implies selected_by(patterns, name) by {
        if selected_by(shorter, name) {
            let k = choose|k: int|
                0 <= k < shorter.len() && match_outcome(#[trigger] shorter[k], name) == Some(true);
            assert(patterns[k] == shorter[k]);
        } else {
            let k = choose|k: int|
                0 <= k < one.len() && match_outcome(#[trigger] one[k], name) == Some(true);
            assert(patterns[i] == one[k]);
        }
    }
    assert forall|name: Seq<char>| available.take(j).contains(name) implies available.contains(
        name,
    ) by {
        let n = choose|n: int| 0 <= n < available.take(j).len() && available.take(j)[n] == name;
        assert(available[n] == name);
    }
}

} // verus!
