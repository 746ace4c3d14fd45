//! The model router: from the model a client asks for to the model and
//! provider that serve it.
//!
//! The mapping is an ordered list of rules; the first rule that matches the
//! requested model decides. Without a match the model passes through.

use crate::account::Provider;
use crate::text::{same_text, starts_with};
use vstd::prelude::*;

verus! {

/// How a rule recognises a model name.
#[derive(Debug)]
pub enum MatchRule {
    /// The name is exactly this text.
    Literal(String),
    /// The name begins with this text.
    Prefix(String),
    /// This regular expression finds a match in the name.
    Regex(String),
}

/// One rule of the mapping.
#[derive(Debug)]
pub struct MappingRule {
    pub pattern: MatchRule,
    pub rewrite_to: String,
    pub provider_hint: Option<Provider>,
}

/// The mapping: rules in the order in which they are tried.
#[derive(Debug)]
pub struct ModelMapping {
    pub rules: Vec<MappingRule>,
}

/// Where a request goes.
#[derive(Debug, PartialEq, Eq)]
pub struct Route {
    pub upstream_model: String,
    pub upstream_provider_override: Option<Provider>,
}

/// The value of a [`MatchRule`].
pub enum PatternModel {
    Literal(Seq<char>),
    Prefix(Seq<char>),
    Regex(Seq<char>),
}

/// The value of a [`MappingRule`].
pub struct RuleModel {
    pub pattern: PatternModel,
    pub rewrite_to: Seq<char>,
    pub provider_hint: Option<Provider>,
}

/// The value of a [`Route`].
pub struct RouteModel {
    pub upstream_model: Seq<char>,
    pub upstream_provider_override: Option<Provider>,
}

impl View for MatchRule {
    type V = PatternModel;

    open spec fn view(&self) -> PatternModel {
        match self {
            MatchRule::Literal(s) => PatternModel::Literal(s@),
            MatchRule::Prefix(s) => PatternModel::Prefix(s@),
            MatchRule::Regex(s) => PatternModel::Regex(s@),
        }
    }
}

impl View for MappingRule {
    type V = RuleModel;

    open spec fn view(&self) -> RuleModel {
        RuleModel {
            pattern: self.pattern@,
            rewrite_to: self.rewrite_to@,
            provider_hint: self.provider_hint,
        }
    }
}

impl View for ModelMapping {
    type V = Seq<RuleModel>;

    open spec fn view(&self) -> Seq<RuleModel> {
        Seq::new(self.rules@.len(), |i: int| self.rules@[i]@)
    }
}

impl View for Route {
    type V = RouteModel;

    open spec fn view(&self) -> RouteModel {
        RouteModel {
            upstream_model: self.upstream_model@,
            upstream_provider_override: self.upstream_provider_override,
        }
    }
}

/// Whether the regular expression `pattern`, as the `regex` crate reads it,
/// finds a match anywhere in `text`. It says nothing of a pattern that the
/// crate rejects.
pub uninterp spec fn regex_finds(pattern: Seq<char>, text: Seq<char>) -> bool;

/// Searches `text` with the regular expression `pattern`.
///
/// Calls `regex::Regex::new` and, where that gives a regex, its `is_match`.
/// `None` means that the pattern was rejected: it is invalid, or its
/// compiled form is over the crate's size limit. That limit is measured in
/// memory, so the contract does not say which patterns are rejected. A
/// search that ran depends on the pattern and the text alone.
#[verifier::external_body]
fn regex_search(pattern: &str, text: &str) -> (found: Option<bool>)
    ensures
        found matches Some(hit) ==> hit == regex_finds(pattern@, text@),
{
    match regex::Regex::new(pattern) {
        Ok(re) => Some(re.is_match(text)),
        Err(_) => None,
    }
}

/// Whether `hit` can be the outcome of trying `pattern` on `model`. A
/// literal and a prefix have one outcome. A regular expression hits only if
/// it finds a match; it misses if it finds none or was rejected.
pub open spec fn outcome_fits(pattern: PatternModel, model: Seq<char>, hit: bool) -> bool {
    match pattern {
        PatternModel::Literal(s) => hit == (s == model),
        PatternModel::Prefix(s) => hit == s.is_prefix_of(model),
        PatternModel::Regex(s) => hit ==> regex_finds(s, model),
    }
}

/// Whether `hits` holds a possible outcome for each rule.
pub open spec fn hits_fit(rules: Seq<RuleModel>, model: Seq<char>, hits: Seq<bool>) -> bool {
    &&& hits.len() == rules.len()
    &&& forall|i: int| 0 <= i < rules.len() ==> outcome_fits(rules[i].pattern, model, #[trigger] hits[i])
}

/// Index of the first hit, or the length where there is none.
pub open spec fn first_hit(hits: Seq<bool>) -> int
    decreases hits.len(),
{
    if hits.len() == 0 {
        0
    } else if hits[0] {
        0
    } else {
        1 + first_hit(hits.drop_first())
    }
}

/// The route of `model` when the rules hit as `hits` says: that of the
/// first rule that hits, else the model itself with no override.
pub open spec fn route_by(rules: Seq<RuleModel>, model: Seq<char>, hits: Seq<bool>) -> RouteModel {
    let k = first_hit(hits);
    if k < rules.len() {
        RouteModel {
            upstream_model: rules[k].rewrite_to,
            upstream_provider_override: rules[k].provider_hint,
        }
    } else {
        RouteModel { upstream_model: model, upstream_provider_override: None }
    }
}

/// `first_hit` is the index of the first `true`.
pub proof fn lemma_first_hit(hits: Seq<bool>, at: int)
    requires
        0 <= at <= hits.len(),
        forall|j: int| 0 <= j < at ==> !#[trigger] hits[j],
        at < hits.len() ==> hits[at],
    ensures
        first_hit(hits) == at,
    decreases hits.len(),
{
    if hits.len() > 0 && at > 0 {
        let rest = hits.drop_first();
        assert forall|j: int| 0 <= j < at - 1 implies !#[trigger] rest[j] by {
            assert(rest[j] == hits[j + 1]);
        }
        lemma_first_hit(rest, at - 1);
    }
}

impl MatchRule {
    /// A copy of the rule.
    pub fn duplicate(&self) -> (r: MatchRule)
        ensures
            r == *self,
    {
        match self {
            MatchRule::Literal(s) => MatchRule::Literal(s.clone()),
            MatchRule::Prefix(s) => MatchRule::Prefix(s.clone()),
            MatchRule::Regex(s) => MatchRule::Regex(s.clone()),
        }
    }

    /// Tries the rule on `model`.
    pub fn hits(&self, model: &str) -> (hit: bool)
        ensures
            outcome_fits(self@, model@, hit),
            self is Literal ==> hit == (self->Literal_0@ == model@),
            self is Prefix ==> hit == self->Prefix_0@.is_prefix_of(model@),
    {
        match self {
            MatchRule::Literal(s) => same_text(s.as_str(), model),
            MatchRule::Prefix(s) => starts_with(model, s.as_str()),
            MatchRule::Regex(s) => match regex_search(s.as_str(), model) {
                Some(hit) => hit,
                None => false,
            },
        }
    }
}

impl MappingRule {
    /// A copy of the rule.
    pub fn duplicate(&self) -> (r: MappingRule)
        ensures
            r == *self,
    {
        MappingRule {
            pattern: self.pattern.duplicate(),
            rewrite_to: self.rewrite_to.clone(),
            provider_hint: self.provider_hint,
        }
    }

    fn route(&self) -> (r: Route)
        ensures
            r@ == (RouteModel {
                upstream_model: self.rewrite_to@,
                upstream_provider_override: self.provider_hint,
            }),
    {
        Route {
            upstream_model: self.rewrite_to.clone(),
            upstream_provider_override: self.provider_hint,
        }
    }
}

impl ModelMapping {
    /// A mapping without rules: every model passes through.
    pub fn new() -> (m: ModelMapping)
        ensures
            m@ == Seq::<RuleModel>::empty(),
    {
        let m = ModelMapping { rules: Vec::new() };
        assert(m@ =~= Seq::<RuleModel>::empty());
        m
    }

    /// A copy of the mapping.
    pub fn duplicate(&self) -> (m: ModelMapping)
        ensures
            m@ == self@,
            m.rules@ == self.rules@,
    {
        let mut rules: Vec<MappingRule> = Vec::new();
        let mut i: usize = 0;
        while i < self.rules.len()
            invariant
                i <= self.rules.len(),
                rules@ == self.rules@.take(i as int),
            decreases self.rules.len() - i,
        {
            rules.push(self.rules[i].duplicate());
            assert(rules@ =~= self.rules@.take(i + 1));
            i += 1;
        }
        assert(self.rules@.take(self.rules@.len() as int) =~= self.rules@);
        let m = ModelMapping { rules };
        assert(m@ =~= self@);
        m
    }

    /// The route of `model`, given for each rule whether it hits.
    pub fn route_for(&self, model: &str, hits: &Vec<bool>) -> (r: Route)
        requires
            hits@.len() == self@.len(),
        ensures
            r@ == route_by(self@, model@, hits@),
    {
        let mut i: usize = 0;
        while i < hits.len()
            invariant
                i <= hits.len(),
                hits@.len() == self.rules@.len(),
                forall|j: int| 0 <= j < i ==> !#[trigger] hits@[j],
            decreases hits.len() - i,
        {
            if hits[i] {
                proof {
                    lemma_first_hit(hits@, i as int);
                }
                return self.rules[i].route();
            }
            i += 1;
        }
        proof {
            lemma_first_hit(hits@, i as int);
        }
        Route { upstream_model: String::from_str(model), upstream_provider_override: None }
    }

    /// The route of `model`: the rules are tried in order, and the first one
    /// that hits decides.
    ///
    /// The route is the one that `route_by` gives for some outcome of the
    /// rules that fits them. Literal and prefix rules have one outcome; for
    /// each regular expression see `outcome_fits`.
    pub fn resolve(&self, model: &str) -> (r: Route)
        ensures
            exists|hits: Seq<bool>|
                hits_fit(self@, model@, hits) && r@ == #[trigger] route_by(self@, model@, hits),
    {
        let ghost rules = self@;
        let mut i: usize = 0;
        while i < self.rules.len()
            invariant
                i <= self.rules.len(),
                rules == self@,
                forall|j: int|
                    0 <= j < i ==> outcome_fits((#[trigger] rules[j]).pattern, model@, false),
            decreases self.rules.len() - i,
        {
            if self.rules[i].pattern.hits(model) {
                let r = self.rules[i].route();
                proof {
                    let hits = Seq::new(
                        rules.len(),
                        |j: int|
                            if j < i {
                                false
                            } else if j == i {
                                true
                            } else {
                                settled(rules[j].pattern, model@)
                            },
                    );
                    lemma_first_hit(hits, i as int);
                    assert(hits_fit(rules, model@, hits));
                    assert(r@ == route_by(rules, model@, hits));
                }
                return r;
            }
            i += 1;
        }
        let r = Route { upstream_model: String::from_str(model), upstream_provider_override: None };
        proof {
            let hits = Seq::new(rules.len(), |j: int| false);
            lemma_first_hit(hits, rules.len() as int);
            assert(hits_fit(rules, model@, hits));
            assert(r@ == route_by(rules, model@, hits));
        }
        r
    }
}

/// An outcome that always fits `pattern`: the one outcome of a literal or a
/// prefix, a miss for a regular expression.
pub open spec fn settled(pattern: PatternModel, model: Seq<char>) -> bool {
    match pattern {
        PatternModel::Literal(s) => s == model,
        PatternModel::Prefix(s) => s.is_prefix_of(model),
        PatternModel::Regex(_) => false,
    }
}

/// The router: the mapping in force, replaced as a whole.
#[derive(Debug)]
pub struct ModelRouter {
    mapping: ModelMapping,
}

impl View for ModelRouter {
    type V = Seq<RuleModel>;

    /// The rules in force.
    closed spec fn view(&self) -> Seq<RuleModel> {
        self.mapping@
    }
}

impl ModelRouter {
    /// A router with `mapping` in force.
    pub fn new(mapping: ModelMapping) -> (r: ModelRouter)
        ensures
            r@ == mapping@,
    {
        ModelRouter { mapping }
    }

    /// Puts `mapping` in force. Every later call routes by it.
    pub fn update_mapping(&mut self, mapping: ModelMapping)
        ensures
            final(self)@ == mapping@,
    {
        self.mapping = mapping;
    }

    /// The mapping in force, as a value of its own. A request takes one when
    /// it begins and routes by it to its end.
    pub fn snapshot(&self) -> (m: ModelMapping)
        ensures
            m@ == self@,
    {
        self.mapping.duplicate()
    }

    /// The route of `model` by the mapping in force.
    pub fn resolve(&self, model: &str) -> (r: Route)
        ensures
            exists|hits: Seq<bool>|
                hits_fit(self@, model@, hits) && r@ == #[trigger] route_by(self@, model@, hits),
    {
        let r = self.mapping.resolve(model);
        proof {
            let hits = choose|hits: Seq<bool>|
                hits_fit(self.mapping@, model@, hits) && r@ == #[trigger] route_by(
                    self.mapping@,
                    model@,
                    hits,
                );
            assert(hits_fit(self@, model@, hits) && r@ == route_by(self@, model@, hits));
        }
        r
    }
}

/// A request that took its snapshot before an update routes by the old
/// mapping, whatever is in force later; a request that begins after the
/// update routes by the new one.
pub proof fn lemma_update_is_atomic(
    before: ModelRouter,
    snapshot: ModelMapping,
    update: ModelMapping,
    after: ModelRouter,
    later: ModelMapping,
    model: Seq<char>,
    hits: Seq<bool>,
)
    requires
        snapshot@ == before@,
        after@ == update@,
        later@ == after@,
    ensures
        route_by(snapshot@, model, hits) == route_by(before@, model, hits),
        hits_fit(snapshot@, model, hits) == hits_fit(before@, model, hits),
        route_by(later@, model, hits) == route_by(update@, model, hits),
        hits_fit(later@, model, hits) == hits_fit(update@, model, hits),
{
}

} // verus!
