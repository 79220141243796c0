//! Rule-based intent analysis: a query is lower-cased and matched against
//! keyword lists; each list that matches adds a typed query with its target
//! directories, and a semantic search is added when nothing else matched or
//! the query speaks of preferences.

use vstd::prelude::*;
use crate::text::{concat_str, contains_any, contains_any_spec, lowercase, str_views, to_lowercase};

verus! {

broadcast use vstd::string::group_string_axioms;

/// A context address such as `uwu://<user>/agent/<agent>/memories/events`.
#[derive(Debug, Clone, PartialEq, Eq)]
pub struct ContextUri(pub String);

/// What a typed query looks for.
#[derive(Debug, Clone, Copy, PartialEq, Eq, Structural)]
pub enum QueryKind {
    EventRecall,
    EntityLookup,
    SkillReuse,
    PatternMatch,
    StateSnapshot,
    PersonaRelation,
    SemanticSearch,
}

/// The class of memory a typed query expects.
#[derive(Debug, Clone, Copy, PartialEq, Eq, Structural)]
pub enum MemoryClass {
    Events,
    Entities,
    Skills,
    Patterns,
    Preferences,
    Cases,
}

/// One typed query derived from a natural-language query.
#[derive(Debug, Clone)]
pub struct TypedQuery {
    pub kind: QueryKind,
    pub text: String,
    pub target_dirs: Vec<ContextUri>,
    pub expected_class: Option<MemoryClass>,
}

/// Who is asking: user and agent, when known.
#[derive(Debug, Clone, Default)]
pub struct RetrieveContext {
    pub user_id: Option<String>,
    pub agent_id: Option<String>,
}

/// The address `uwu://<user>/agent/<agent><tail>`.
pub open spec fn agent_uri_text(user: Seq<char>, agent: Seq<char>, tail: Seq<char>) -> Seq<char> {
    "uwu://"@ + user + "/agent/"@ + agent + tail
}

/// The address of memory directory `sub`.
pub open spec fn memories_text(user: Seq<char>, agent: Seq<char>, sub: Seq<char>) -> Seq<char> {
    agent_uri_text(user, agent, "/memories/"@ + sub)
}

/// The keywords of each rule (for `SemanticSearch`, the preference words).
pub open spec fn rule_words(kind: QueryKind) -> Seq<Seq<char>> {
    match kind {
        QueryKind::EventRecall => seq!["when"@, "happened"@, "event"@, "那天"@, "之前"@, "上次"@],
        QueryKind::EntityLookup => seq!["who"@, "what is"@, "entity"@, "project"@, "是谁"@, "什么是"@, "哪个"@],
        QueryKind::SkillReuse => seq!["how to"@, "how do"@, "步骤"@, "方法"@, "怎么"@, "如何"@, "教程"@],
        QueryKind::PatternMatch => seq!["pattern"@, "template"@, "模式"@, "模板"@, "惯例"@, "typically"@],
        QueryKind::StateSnapshot => seq!["state"@, "snapshot"@, "状态"@, "当前"@, "now"@, "recently"@, "最近"@],
        QueryKind::PersonaRelation => seq!["relation"@, "persona"@, "关系"@, "朋友"@, "信任"@, "trust"@],
        QueryKind::SemanticSearch => seq!["prefer"@, "like"@, "dislike"@, "喜欢"@, "偏好"@, "remember"@, "记得"@],
    }
}

/// The directories each kind of query targets.
pub open spec fn rule_dirs(kind: QueryKind, u: Seq<char>, a: Seq<char>) -> Seq<Seq<char>> {
    match kind {
        QueryKind::EventRecall => seq![memories_text(u, a, "events"@), memories_text(u, a, "cases"@)],
        QueryKind::EntityLookup => seq![memories_text(u, a, "entities"@), memories_text(u, a, "profile"@)],
        QueryKind::SkillReuse => seq![
            memories_text(u, a, "skills"@),
            memories_text(u, a, "tools"@),
            agent_uri_text(u, a, "/experiences"@),
        ],
        QueryKind::PatternMatch => seq![memories_text(u, a, "patterns"@), memories_text(u, a, "cases"@)],
        QueryKind::StateSnapshot => seq![agent_uri_text(u, a, "/state/short"@), agent_uri_text(u, a, "/state/mid"@)],
        QueryKind::PersonaRelation => seq![agent_uri_text(u, a, "/persona/relations"@)],
        QueryKind::SemanticSearch => seq![
            memories_text(u, a, "preferences"@),
            memories_text(u, a, "profile"@),
            memories_text(u, a, "cases"@),
            memories_text(u, a, "events"@),
            memories_text(u, a, "skills"@),
            memories_text(u, a, "tools"@),
        ],
    }
}

/// The memory class each kind of query expects.
pub open spec fn rule_class(kind: QueryKind) -> Option<MemoryClass> {
    match kind {
        QueryKind::EventRecall => Some(MemoryClass::Events),
        QueryKind::EntityLookup => Some(MemoryClass::Entities),
        QueryKind::SkillReuse => Some(MemoryClass::Skills),
        QueryKind::PatternMatch => Some(MemoryClass::Patterns),
        _ => None,
    }
}

/// `r` with `k` appended when `cond` holds.
pub open spec fn push_if(r: Seq<QueryKind>, cond: bool, k: QueryKind) -> Seq<QueryKind> {
    if cond {
        r.push(k)
    } else {
        r
    }
}

/// The kinds a lower-cased query yields, in rule order.
pub open spec fn classify_kinds(lower: Seq<char>) -> Seq<QueryKind> {
    let r0 = Seq::<QueryKind>::empty();
    let r1 = push_if(r0, contains_any_spec(lower, rule_words(QueryKind::EventRecall)), QueryKind::EventRecall);
    let r2 = push_if(r1, contains_any_spec(lower, rule_words(QueryKind::EntityLookup)), QueryKind::EntityLookup);
    let r3 = push_if(r2, contains_any_spec(lower, rule_words(QueryKind::SkillReuse)), QueryKind::SkillReuse);
    let r4 = push_if(r3, contains_any_spec(lower, rule_words(QueryKind::PatternMatch)), QueryKind::PatternMatch);
    let r5 = push_if(r4, contains_any_spec(lower, rule_words(QueryKind::StateSnapshot)), QueryKind::StateSnapshot);
    let r6 = push_if(r5, contains_any_spec(lower, rule_words(QueryKind::PersonaRelation)), QueryKind::PersonaRelation);
    push_if(
        r6,
        r6.len() == 0 || contains_any_spec(lower, rule_words(QueryKind::SemanticSearch)),
        QueryKind::SemanticSearch,
    )
}

/// The texts of a list of context addresses.
pub open spec fn uri_texts(v: Seq<ContextUri>) -> Seq<Seq<char>> {
    v.map_values(|u: ContextUri| u.0@)
}

/// Whether `q` is the typed query of kind `k` for `text`, user `u` and
/// agent `a`.
pub open spec fn is_rule_query(q: TypedQuery, k: QueryKind, text: Seq<char>, u: Seq<char>, a: Seq<char>) -> bool {
    &&& q.kind == k
    &&& q.text@ == text
    &&& uri_texts(q.target_dirs@) == rule_dirs(k, u, a)
    &&& q.expected_class == rule_class(k)
}

/// Whether the lower-cased query hits the keywords of rule `kind`.
fn matches_rule(lower: &str, kind: QueryKind) -> (b: bool)
    ensures
        b == contains_any_spec(lower@, rule_words(kind)),
{
    match kind {
        QueryKind::EventRecall => {
            let w: [&str; 6] = ["when", "happened", "event", "那天", "之前", "上次"];
            proof { assert(str_views(w@) =~= rule_words(kind)); }
            contains_any(lower, &w)
        },
        QueryKind::EntityLookup => {
            let w: [&str; 7] = ["who", "what is", "entity", "project", "是谁", "什么是", "哪个"];
            proof { assert(str_views(w@) =~= rule_words(kind)); }
            contains_any(lower, &w)
        },
        QueryKind::SkillReuse => {
            let w: [&str; 7] = ["how to", "how do", "步骤", "方法", "怎么", "如何", "教程"];
            proof { assert(str_views(w@) =~= rule_words(kind)); }
            contains_any(lower, &w)
        },
        QueryKind::PatternMatch => {
            let w: [&str; 6] = ["pattern", "template", "模式", "模板", "惯例", "typically"];
            proof { assert(str_views(w@) =~= rule_words(kind)); }
            contains_any(lower, &w)
        },
        QueryKind::StateSnapshot => {
            let w: [&str; 7] = ["state", "snapshot", "状态", "当前", "now", "recently", "最近"];
            proof { assert(str_views(w@) =~= rule_words(kind)); }
            contains_any(lower, &w)
        },
        QueryKind::PersonaRelation => {
            let w: [&str; 6] = ["relation", "persona", "关系", "朋友", "信任", "trust"];
            proof { assert(str_views(w@) =~= rule_words(kind)); }
            contains_any(lower, &w)
        },
        QueryKind::SemanticSearch => {
            let w: [&str; 7] = ["prefer", "like", "dislike", "喜欢", "偏好", "remember", "记得"];
            proof { assert(str_views(w@) =~= rule_words(kind)); }
            contains_any(lower, &w)
        },
    }
}

/// The address `uwu://<user>/agent/<agent><tail>`.
fn agent_uri(user: &str, agent: &str, tail: &str) -> (r: ContextUri)
    ensures
        r.0@ == agent_uri_text(user@, agent@, tail@),
{
    let a = concat_str("uwu://", user);
    let b = concat_str(a.as_str(), "/agent/");
    let c = concat_str(b.as_str(), agent);
    let d = concat_str(c.as_str(), tail);
    proof {
        assert(d@ =~= agent_uri_text(user@, agent@, tail@));
    }
    ContextUri(d)
}

/// The address of memory directory `sub` of a user's agent.
pub fn memories_dir(user: &str, agent: &str, sub: &str) -> (r: ContextUri)
    ensures
        r.0@ == memories_text(user@, agent@, sub@),
{
    let tail = concat_str("/memories/", sub);
    let r = agent_uri(user, agent, tail.as_str());
    proof {
        assert(r.0@ =~= memories_text(user@, agent@, sub@));
    }
    r
}

/// The directories of rule `kind`.
fn dirs_for(kind: QueryKind, u: &str, a: &str) -> (r: Vec<ContextUri>)
    ensures
        uri_texts(r@) == rule_dirs(kind, u@, a@),
{
    let mut v: Vec<ContextUri> = Vec::new();
    match kind {
        QueryKind::EventRecall => {
            v.push(memories_dir(u, a, "events"));
            v.push(memories_dir(u, a, "cases"));
        },
        QueryKind::EntityLookup => {
            v.push(memories_dir(u, a, "entities"));
            v.push(memories_dir(u, a, "profile"));
        },
        QueryKind::SkillReuse => {
            v.push(memories_dir(u, a, "skills"));
            v.push(memories_dir(u, a, "tools"));
            v.push(agent_uri(u, a, "/experiences"));
        },
        QueryKind::PatternMatch => {
            v.push(memories_dir(u, a, "patterns"));
            v.push(memories_dir(u, a, "cases"));
        },
        QueryKind::StateSnapshot => {
            v.push(agent_uri(u, a, "/state/short"));
            v.push(agent_uri(u, a, "/state/mid"));
        },
        QueryKind::PersonaRelation => {
            v.push(agent_uri(u, a, "/persona/relations"));
        },
        QueryKind::SemanticSearch => {
            v.push(memories_dir(u, a, "preferences"));
            v.push(memories_dir(u, a, "profile"));
            v.push(memories_dir(u, a, "cases"));
            v.push(memories_dir(u, a, "events"));
            v.push(memories_dir(u, a, "skills"));
            v.push(memories_dir(u, a, "tools"));
        },
    }
    proof {
        assert(uri_texts(v@) =~= rule_dirs(kind, u@, a@));
    }
    v
}

/// The typed query of rule `kind`.
fn rule_query(kind: QueryKind, query: &str, u: &str, a: &str) -> (q: TypedQuery)
    ensures
        is_rule_query(q, kind, query@, u@, a@),
{
    let expected_class = match kind {
        QueryKind::EventRecall => Some(MemoryClass::Events),
        QueryKind::EntityLookup => Some(MemoryClass::Entities),
        QueryKind::SkillReuse => Some(MemoryClass::Skills),
        QueryKind::PatternMatch => Some(MemoryClass::Patterns),
        _ => None,
    };
    TypedQuery { kind, text: query.to_owned(), target_dirs: dirs_for(kind, u, a), expected_class }
}

/// Intent analysis by keyword rules, without a language model.
pub struct RuleBasedIntentAnalyzer {
    default_user_id: String,
    default_agent_id: String,
}

impl RuleBasedIntentAnalyzer {
    /// The user id used when the context names none.
    pub closed spec fn default_user(&self) -> Seq<char> {
        self.default_user_id@
    }

    /// The agent id used when the context names none.
    pub closed spec fn default_agent(&self) -> Seq<char> {
        self.default_agent_id@
    }

    /// An analyzer with default user and agent ids.
    pub fn new(default_user_id: &str, default_agent_id: &str) -> (r: RuleBasedIntentAnalyzer)
        ensures
            r.default_user() == default_user_id@,
            r.default_agent() == default_agent_id@,
    {
        RuleBasedIntentAnalyzer {
            default_user_id: default_user_id.to_owned(),
            default_agent_id: default_agent_id.to_owned(),
        }
    }

    /// The typed queries of `query`: one per matching rule, in rule order
    /// (see `classify_kinds`), for the context's user and agent or the
    /// defaults.
    pub fn classify(&self, query: &str, ctx: &RetrieveContext) -> (r: Vec<TypedQuery>)
        ensures
            ({
                let kinds = classify_kinds(lowercase(query@));
                let u = match ctx.user_id { Some(x) => x@, None => self.default_user() };
                let a = match ctx.agent_id { Some(x) => x@, None => self.default_agent() };
                &&& r@.len() == kinds.len()
                &&& forall|i: int| 0 <= i < kinds.len() ==> is_rule_query(#[trigger] r@[i], kinds[i], query@, u, a)
            }),
    {
        let lower = to_lowercase(query);
        let u: &str = match &ctx.user_id {
            Some(x) => x.as_str(),
            None => self.default_user_id.as_str(),
        };
        let a: &str = match &ctx.agent_id {
            Some(x) => x.as_str(),
            None => self.default_agent_id.as_str(),
        };
        let ghost l = lowercase(query@);
        let kinds: [QueryKind; 6] = [
            QueryKind::EventRecall,
            QueryKind::EntityLookup,
            QueryKind::SkillReuse,
            QueryKind::PatternMatch,
            QueryKind::StateSnapshot,
            QueryKind::PersonaRelation,
        ];
        let mut results: Vec<TypedQuery> = Vec::new();
        let ghost mut kseq = Seq::<QueryKind>::empty();
        let mut i: usize = 0;
        while i < 6
            invariant
                i <= 6,
                kinds@ == seq![
                    QueryKind::EventRecall,
                    QueryKind::EntityLookup,
                    QueryKind::SkillReuse,
                    QueryKind::PatternMatch,
                    QueryKind::StateSnapshot,
                    QueryKind::PersonaRelation,
                ],
                lower@ == l,
                results@.len() == kseq.len(),
                forall|j: int| 0 <= j < kseq.len() ==> is_rule_query(#[trigger] results@[j], kseq[j], query@, u@, a@),
                kseq == push_if_rules(l, i as int),
            decreases 6 - i,
        {
            let k = kinds[i];
            proof {
                assert(k == rule_kind_at(i as int));
            }
            if matches_rule(lower.as_str(), k) {
                results.push(rule_query(k, query, u, a));
                proof {
                    kseq = kseq.push(k);
                }
            }
            i = i + 1;
        }
        proof {
            reveal_with_fuel(push_if_rules, 7);
            assert(kseq == push_if_rules(l, 6));
        }
        if results.len() == 0 || matches_rule(lower.as_str(), QueryKind::SemanticSearch) {
            results.push(rule_query(QueryKind::SemanticSearch, query, u, a));
            proof {
                kseq = kseq.push(QueryKind::SemanticSearch);
            }
        }
        proof {
            assert(kseq == classify_kinds(l));
        }
        results
    }
}

/// The kinds the first `n` keyword rules yield.
pub open spec fn push_if_rules(l: Seq<char>, n: int) -> Seq<QueryKind>
    decreases n,
{
    if n <= 0 {
        Seq::empty()
    } else {
        let k = rule_kind_at(n - 1);
        push_if(push_if_rules(l, n - 1), contains_any_spec(l, rule_words(k)), k)
    }
}

/// The kind of the `i`-th keyword rule.
pub open spec fn rule_kind_at(i: int) -> QueryKind {
    if i == 0 {
        QueryKind::EventRecall
    } else if i == 1 {
        QueryKind::EntityLookup
    } else if i == 2 {
        QueryKind::SkillReuse
    } else if i == 3 {
        QueryKind::PatternMatch
    } else if i == 4 {
        QueryKind::StateSnapshot
    } else {
        QueryKind::PersonaRelation
    }
}


/// Every query yields at least one typed query: when no rule matches, the
/// semantic search is the fallback, and it always comes last.
pub proof fn classify_never_empty(lower: Seq<char>)
    ensures
        classify_kinds(lower).len() >= 1,
        classify_kinds(lower).last() == QueryKind::SemanticSearch || !contains_any_spec(
            lower,
            rule_words(QueryKind::SemanticSearch),
        ),
{
}

} // verus!
