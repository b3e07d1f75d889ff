//! The ClearHead domain model as the graph and export layers read it.

use vstd::prelude::*;

verus! {

/// Lifecycle state of an action.
#[derive(Clone, Copy, Debug, PartialEq, Eq)]
pub enum ActionState {
    NotStarted,
    InProgress,
    Completed,
    BlockedOrAwaiting,
    Cancelled,
}

/// Lifecycle state of a charter.
#[derive(Clone, Copy, Debug, PartialEq, Eq)]
pub enum CharterState {
    New,
    Active,
    Blocked,
    Closed,
    Cancelled,
}

/// The vocabulary term of an action state.
pub open spec fn phase_name(s: ActionState) -> Seq<char> {
    match s {
        ActionState::NotStarted => "NotStarted"@,
        ActionState::InProgress => "InProgress"@,
        ActionState::Completed => "Completed"@,
        ActionState::BlockedOrAwaiting => "Blocked"@,
        ActionState::Cancelled => "Cancelled"@,
    }
}

/// The vocabulary term of an action state.
pub fn phase_term(s: ActionState) -> (r: &'static str)
    ensures
        r@ == phase_name(s),
{
    match s {
        ActionState::NotStarted => "NotStarted",
        ActionState::InProgress => "InProgress",
        ActionState::Completed => "Completed",
        ActionState::BlockedOrAwaiting => "Blocked",
        ActionState::Cancelled => "Cancelled",
    }
}

/// The name of a charter state.
pub open spec fn charter_state_name(s: CharterState) -> Seq<char> {
    match s {
        CharterState::New => "New"@,
        CharterState::Active => "Active"@,
        CharterState::Blocked => "Blocked"@,
        CharterState::Closed => "Closed"@,
        CharterState::Cancelled => "Cancelled"@,
    }
}

/// The name of a charter state.
pub fn charter_state_term(s: CharterState) -> (r: &'static str)
    ensures
        r@ == charter_state_name(s),
{
    match s {
        CharterState::New => "New",
        CharterState::Active => "Active",
        CharterState::Blocked => "Blocked",
        CharterState::Closed => "Closed",
        CharterState::Cancelled => "Cancelled",
    }
}

/// Whether an action in state `s` is closed (completed or cancelled).
pub open spec fn is_closed_state(s: ActionState) -> bool {
    s == ActionState::Completed || s == ActionState::Cancelled
}

/// The RFC 3339 text chrono writes for the instant `secs`/`nanos` after the
/// Unix epoch shown at UTC offset `offset` seconds (`DateTime::to_rfc3339`),
/// or `None` where chrono cannot represent that instant or offset.
pub uninterp spec fn rfc3339_text(secs: i64, nanos: u32, offset: i32) -> Option<Seq<char>>;

/// Whether `DateTime::from_timestamp` accepts the instant `secs` seconds
/// after the Unix epoch with less than a second of nanoseconds: whether its
/// date lies within chrono's range.
pub uninterp spec fn instant_in_range(secs: i64) -> bool;

/// Calls `DateTime::from_timestamp`, `FixedOffset::east_opt`,
/// `DateTime::with_timezone` and `DateTime::to_rfc3339`. With less than a
/// second of nanoseconds it succeeds exactly when the instant is within
/// chrono's range and the offset is less than a day either way.
#[verifier::external_body]
pub fn chrono_rfc3339(secs: i64, nanos: u32, offset: i32) -> (r: Option<String>)
    ensures
        r is Some ==> nanos >= 1_000_000_000 || (instant_in_range(secs) && -86400 < offset < 86400),
        r is None ==> nanos >= 1_000_000_000 || !instant_in_range(secs) || !(-86400 < offset < 86400),
        r matches Some(s) ==> rfc3339_text(secs, nanos, offset) == Some(s@),
        r is None ==> rfc3339_text(secs, nanos, offset) is None,
{
    chrono::DateTime::from_timestamp(secs, nanos).zip(chrono::FixedOffset::east_opt(offset)).map(
        |(d, o)| d.with_timezone(&o).to_rfc3339(),
    )
}

/// An instant with the UTC offset it is shown at; chrono can represent it.
#[derive(Clone, Copy, Debug, PartialEq, Eq)]
pub struct Timestamp {
    secs: i64,
    nanos: u32,
    offset: i32,
}

impl Timestamp {
    #[verifier::type_invariant]
    spec fn representable(self) -> bool {
        &&& rfc3339_text(self.secs, self.nanos, self.offset) is Some
        &&& self.nanos < 1_000_000_000
        &&& instant_in_range(self.secs)
        &&& -86400 < self.offset < 86400
    }

    /// Seconds since the Unix epoch.
    pub closed spec fn secs_view(self) -> i64 {
        self.secs
    }

    /// Nanoseconds within the second.
    pub closed spec fn nanos_view(self) -> u32 {
        self.nanos
    }

    /// UTC offset in seconds.
    pub closed spec fn offset_view(self) -> i32 {
        self.offset
    }

    /// The RFC 3339 text of the instant.
    pub closed spec fn text(self) -> Seq<char> {
        rfc3339_text(self.secs, self.nanos, self.offset)->Some_0
    }

    /// The instant `secs`/`nanos` after the epoch at offset `offset` seconds,
    /// or `None` where chrono cannot represent it or `nanos` is not below one
    /// second (a leap second).
    pub fn new(secs: i64, nanos: u32, offset: i32) -> (r: Option<Timestamp>)
        ensures
            r is Some <==> rfc3339_text(secs, nanos, offset) is Some && nanos < 1_000_000_000,
            nanos < 1_000_000_000 && instant_in_range(secs) && -86400 < offset < 86400 ==> r is Some,
            r matches Some(t) ==> t.secs_view() == secs && t.nanos_view() == nanos && t.offset_view()
                == offset,
    {
        if nanos >= 1_000_000_000 {
            return None;
        }
        match chrono_rfc3339(secs, nanos, offset) {
            Some(_) => Some(Timestamp { secs, nanos, offset }),
            None => None,
        }
    }

    /// Seconds since the Unix epoch.
    pub fn secs(&self) -> (r: i64)
        ensures
            r == self.secs_view(),
            instant_in_range(r),
    {
        proof {
            use_type_invariant(self);
        }
        self.secs
    }

    /// Nanoseconds within the second (below one second).
    pub fn nanos(&self) -> (r: u32)
        ensures
            r == self.nanos_view(),
            r < 1_000_000_000,
    {
        proof {
            use_type_invariant(self);
        }
        self.nanos
    }

    /// UTC offset in seconds.
    pub fn offset(&self) -> (r: i32)
        ensures
            r == self.offset_view(),
            -86400 < r < 86400,
    {
        proof {
            use_type_invariant(self);
        }
        self.offset
    }

    /// The RFC 3339 text of the instant (`DateTime::to_rfc3339`).
    pub fn to_rfc3339(&self) -> (r: String)
        ensures
            r@ == self.text(),
    {
        proof {
            use_type_invariant(self);
        }
        match chrono_rfc3339(self.secs, self.nanos, self.offset) {
            Some(s) => s,
            None => String::new(),
        }
    }
}

/// A reference to a predecessor action, with the UUID it resolved to.
#[derive(Clone, Debug)]
pub struct PredecessorRef {
    pub raw_ref: String,
    pub resolved_uuid: Option<u128>,
}

/// An action. Identifiers are the 128 bits of the action's UUID.
#[derive(Clone, Debug)]
pub struct Action {
    pub id: u128,
    pub name: String,
    pub description: Option<String>,
    pub priority: Option<u64>,
    pub contexts: Option<Vec<String>>,
    pub parent_id: Option<u128>,
    pub predecessors: Option<Vec<PredecessorRef>>,
    pub alias: Option<String>,
    pub is_sequential: Option<bool>,
    pub plan_id: Option<u128>,
    pub external_schedule_id: Option<String>,
    pub external_occurrence_key: Option<String>,
    pub state: ActionState,
    pub scheduled_at: Option<Timestamp>,
    pub due_date: Option<Timestamp>,
    pub completed_at: Option<Timestamp>,
    pub created_at: Option<Timestamp>,
    pub duration: Option<u64>,
}

/// The value of an [`Action`].
pub struct ActionView {
    pub id: u128,
    pub name: Seq<char>,
    pub description: Option<Seq<char>>,
    pub priority: Option<u64>,
    pub contexts: Option<Seq<Seq<char>>>,
    pub parent_id: Option<u128>,
    pub predecessors: Option<Seq<(Seq<char>, Option<u128>)>>,
    pub alias: Option<Seq<char>>,
    pub is_sequential: Option<bool>,
    pub plan_id: Option<u128>,
    pub external_schedule_id: Option<Seq<char>>,
    pub external_occurrence_key: Option<Seq<char>>,
    pub state: ActionState,
    pub scheduled_at: Option<Timestamp>,
    pub due_date: Option<Timestamp>,
    pub completed_at: Option<Timestamp>,
    pub created_at: Option<Timestamp>,
    pub duration: Option<u64>,
}

/// The view of an optional string.
pub open spec fn ostr(o: Option<String>) -> Option<Seq<char>> {
    match o {
        Some(s) => Some(s@),
        None => None,
    }
}

/// The views of a sequence of strings.
pub open spec fn strs(v: Seq<String>) -> Seq<Seq<char>> {
    v.map_values(|s: String| s@)
}

impl View for Action {
    type V = ActionView;

    open spec fn view(&self) -> ActionView {
        ActionView {
            id: self.id,
            name: self.name@,
            description: ostr(self.description),
            priority: self.priority,
            contexts: match self.contexts {
                Some(c) => Some(strs(c@)),
                None => None,
            },
            parent_id: self.parent_id,
            predecessors: match self.predecessors {
                Some(p) => Some(p@.map_values(|r: PredecessorRef| (r.raw_ref@, r.resolved_uuid))),
                None => None,
            },
            alias: ostr(self.alias),
            is_sequential: self.is_sequential,
            plan_id: self.plan_id,
            external_schedule_id: ostr(self.external_schedule_id),
            external_occurrence_key: ostr(self.external_occurrence_key),
            state: self.state,
            scheduled_at: self.scheduled_at,
            due_date: self.due_date,
            completed_at: self.completed_at,
            created_at: self.created_at,
            duration: self.duration,
        }
    }
}

/// A plan: a recurring or template source of actions. The recurrence rules are
/// carried as their rendered text.
#[derive(Clone, Debug)]
pub struct Plan {
    pub id: u128,
    pub name: String,
    pub description: Option<String>,
    pub recurrence: Option<String>,
    pub due_recurrence: Option<String>,
    pub external_id: Option<String>,
    pub template_name: Option<String>,
    pub dtstart: Option<Timestamp>,
}

/// The value of a [`Plan`].
pub struct PlanView {
    pub id: u128,
    pub name: Seq<char>,
    pub description: Option<Seq<char>>,
    pub recurrence: Option<Seq<char>>,
    pub due_recurrence: Option<Seq<char>>,
    pub external_id: Option<Seq<char>>,
    pub template_name: Option<Seq<char>>,
    pub dtstart: Option<Timestamp>,
}

impl View for Plan {
    type V = PlanView;

    open spec fn view(&self) -> PlanView {
        PlanView {
            id: self.id,
            name: self.name@,
            description: ostr(self.description),
            recurrence: ostr(self.recurrence),
            due_recurrence: ostr(self.due_recurrence),
            external_id: ostr(self.external_id),
            template_name: ostr(self.template_name),
            dtstart: self.dtstart,
        }
    }
}

/// A charter: a named area of responsibility holding plans and actions.
/// `parent` refers to the parent charter by title or alias.
#[derive(Clone, Debug)]
pub struct Charter {
    pub id: u128,
    pub title: String,
    pub description: Option<String>,
    pub alias: Option<String>,
    pub state: Option<CharterState>,
    pub parent: Option<String>,
    pub plans: Vec<Plan>,
    pub actions: Vec<Action>,
}

/// The value of a [`Charter`].
pub struct CharterView {
    pub id: u128,
    pub title: Seq<char>,
    pub description: Option<Seq<char>>,
    pub alias: Option<Seq<char>>,
    pub state: Option<CharterState>,
    pub parent: Option<Seq<char>>,
    pub plans: Seq<PlanView>,
    pub actions: Seq<ActionView>,
}

/// The views of a sequence of plans.
pub open spec fn plans_view(v: Seq<Plan>) -> Seq<PlanView> {
    v.map_values(|p: Plan| p@)
}

/// The views of a sequence of actions.
pub open spec fn actions_view(v: Seq<Action>) -> Seq<ActionView> {
    v.map_values(|a: Action| a@)
}

impl View for Charter {
    type V = CharterView;

    open spec fn view(&self) -> CharterView {
        CharterView {
            id: self.id,
            title: self.title@,
            description: ostr(self.description),
            alias: ostr(self.alias),
            state: self.state,
            parent: ostr(self.parent),
            plans: plans_view(self.plans@),
            actions: actions_view(self.actions@),
        }
    }
}

/// The domain model: the charters of a workspace.
#[derive(Clone, Debug)]
pub struct DomainModel {
    pub charters: Vec<Charter>,
}

/// The views of a sequence of charters.
pub open spec fn charters_view(v: Seq<Charter>) -> Seq<CharterView> {
    v.map_values(|c: Charter| c@)
}

impl View for DomainModel {
    type V = Seq<CharterView>;

    open spec fn view(&self) -> Seq<CharterView> {
        charters_view(self.charters@)
    }
}

/// Workspace configuration the graph loader reads: context tag hierarchies
/// (each parent tag with its child tags) and additional workspace paths.
#[derive(Clone, Debug)]
pub struct WorkspaceConfig {
    pub tag_hierarchies: Vec<(String, Vec<String>)>,
    pub additional_workspaces: Vec<String>,
}

/// The tag hierarchies of a configuration.
pub open spec fn hierarchies_view(c: WorkspaceConfig) -> Seq<(Seq<char>, Seq<Seq<char>>)> {
    c.tag_hierarchies@.map_values(|h: (String, Vec<String>)| (h.0@, strs(h.1@)))
}

/// The resolved UUIDs among `refs`, in order.
pub open spec fn resolved_ids(refs: Seq<(Seq<char>, Option<u128>)>) -> Seq<u128>
    decreases refs.len(),
{
    if refs.len() == 0 {
        Seq::empty()
    } else {
        let rest = resolved_ids(refs.drop_last());
        match refs.last().1 {
            Some(id) => rest.push(id),
            None => rest,
        }
    }
}

/// The UUIDs an action's predecessors resolved to, in order.
pub open spec fn depends_on(a: ActionView) -> Seq<u128> {
    match a.predecessors {
        Some(p) => resolved_ids(p),
        None => Seq::empty(),
    }
}

impl Action {
    /// The UUIDs this action's predecessors resolved to, in order.
    pub fn depends_on(&self) -> (r: Vec<u128>)
        ensures
            r@ == depends_on(self@),
    {
        let mut out: Vec<u128> = Vec::new();
        match &self.predecessors {
            None => {},
            Some(p) => {
                let ghost pv = p@.map_values(|r: PredecessorRef| (r.raw_ref@, r.resolved_uuid));
                let mut i: usize = 0;
                while i < p.len()
                    invariant
                        pv == p@.map_values(|r: PredecessorRef| (r.raw_ref@, r.resolved_uuid)),
                        i <= p@.len(),
                        out@ == resolved_ids(pv.subrange(0, i as int)),
                    decreases p@.len() - i,
                {
                    assert(pv.subrange(0, i + 1).drop_last() == pv.subrange(0, i as int));
                    match p[i].resolved_uuid {
                        Some(id) => out.push(id),
                        None => {},
                    }
                    i = i + 1;
                }
                assert(pv.subrange(0, p@.len() as int) == pv);
            },
        }
        out
    }
}

/// All actions of the model, charter by charter, each charter's in order.
pub open spec fn all_actions(charters: Seq<CharterView>) -> Seq<ActionView>
    decreases charters.len(),
{
    if charters.len() == 0 {
        Seq::empty()
    } else {
        all_actions(charters.drop_last()) + charters.last().actions
    }
}

/// Mapping distributes over pushing an element.
pub proof fn lemma_map_push<A, B>(s: Seq<A>, x: A, f: spec_fn(A) -> B)
    ensures
        s.push(x).map_values(f) == s.map_values(f).push(f(x)),
{
    assert(s.push(x).map_values(f) =~= s.map_values(f).push(f(x)));
}

/// A copy of `s`.
pub fn clone_opt_string(s: &Option<String>) -> (r: Option<String>)
    ensures
        ostr(r) == ostr(*s),
{
    match s {
        Some(x) => Some(x.clone()),
        None => None,
    }
}

/// A copy of `v`.
pub fn clone_strings(v: &Vec<String>) -> (r: Vec<String>)
    ensures
        strs(r@) == strs(v@),
{
    let mut out: Vec<String> = Vec::new();
    let mut i: usize = 0;
    while i < v.len()
        invariant
            i <= v@.len(),
            strs(out@) == strs(v@.subrange(0, i as int)),
        decreases v@.len() - i,
    {
        out.push(v[i].clone());
        assert(strs(v@.subrange(0, i + 1)) == strs(v@.subrange(0, i as int)).push(v@[i as int]@));
        assert(strs(out@) =~= strs(v@.subrange(0, i + 1)));
        i = i + 1;
    }
    assert(v@.subrange(0, v@.len() as int) == v@);
    out
}

impl Action {
    /// A copy of this action.
    pub fn copy(&self) -> (r: Action)
        ensures
            r@ == self@,
    {
        let contexts = match &self.contexts {
            Some(c) => Some(clone_strings(c)),
            None => None,
        };
        let predecessors = match &self.predecessors {
            Some(p) => {
                let mut out: Vec<PredecessorRef> = Vec::new();
                let mut i: usize = 0;
                while i < p.len()
                    invariant
                        i <= p@.len(),
                        out@.map_values(|r: PredecessorRef| (r.raw_ref@, r.resolved_uuid))
                            == p@.subrange(0, i as int).map_values(|r: PredecessorRef| (r.raw_ref@, r.resolved_uuid)),
                    decreases p@.len() - i,
                {
                    let ghost before = out@;
                    let item = PredecessorRef { raw_ref: p[i].raw_ref.clone(), resolved_uuid: p[i].resolved_uuid };
                    let ghost f = |r: PredecessorRef| (r.raw_ref@, r.resolved_uuid);
                    out.push(item);
                    proof {
                        assert(p@.subrange(0, i + 1) == p@.subrange(0, i as int).push(p@[i as int]));
                        lemma_map_push(before, item, f);
                        lemma_map_push(p@.subrange(0, i as int), p@[i as int], f);
                    }
                    i = i + 1;
                }
                assert(p@.subrange(0, p@.len() as int) == p@);
                Some(out)
            },
            None => None,
        };
        Action {
            id: self.id,
            name: self.name.clone(),
            description: clone_opt_string(&self.description),
            priority: self.priority,
            contexts,
            parent_id: self.parent_id,
            predecessors,
            alias: clone_opt_string(&self.alias),
            is_sequential: self.is_sequential,
            plan_id: self.plan_id,
            external_schedule_id: clone_opt_string(&self.external_schedule_id),
            external_occurrence_key: clone_opt_string(&self.external_occurrence_key),
            state: self.state,
            scheduled_at: self.scheduled_at,
            due_date: self.due_date,
            completed_at: self.completed_at,
            created_at: self.created_at,
            duration: self.duration,
        }
    }
}

impl Plan {
    /// A copy of this plan.
    pub fn copy(&self) -> (r: Plan)
        ensures
            r@ == self@,
    {
        Plan {
            id: self.id,
            name: self.name.clone(),
            description: clone_opt_string(&self.description),
            recurrence: clone_opt_string(&self.recurrence),
            due_recurrence: clone_opt_string(&self.due_recurrence),
            external_id: clone_opt_string(&self.external_id),
            template_name: clone_opt_string(&self.template_name),
            dtstart: self.dtstart,
        }
    }
}

/// Copies of `v`.
pub fn copy_plans(v: &Vec<Plan>) -> (r: Vec<Plan>)
    ensures
        plans_view(r@) == plans_view(v@),
{
    let mut out: Vec<Plan> = Vec::new();
    let mut i: usize = 0;
    while i < v.len()
        invariant
            i <= v@.len(),
            plans_view(out@) == plans_view(v@.subrange(0, i as int)),
        decreases v@.len() - i,
    {
        let ghost before = out@;
        let c = v[i].copy();
        out.push(c);
        proof {
            assert(v@.subrange(0, i + 1) == v@.subrange(0, i as int).push(v@[i as int]));
            lemma_map_push(before, c, |p: Plan| p@);
            lemma_map_push(v@.subrange(0, i as int), v@[i as int], |p: Plan| p@);
        }
        i = i + 1;
    }
    assert(v@.subrange(0, v@.len() as int) == v@);
    out
}

impl Action {
    /// A not-started action with nothing but its UUID and name.
    pub fn named(id: u128, name: String) -> (r: Action)
        ensures
            r.id == id,
            r.name@ == name@,
            r.description is None,
            r.priority is None,
            r.contexts is None,
            r.parent_id is None,
            r.predecessors is None,
            r.alias is None,
            r.is_sequential is None,
            r.plan_id is None,
            r.external_schedule_id is None,
            r.external_occurrence_key is None,
            r.state == ActionState::NotStarted,
            r.scheduled_at is None,
            r.due_date is None,
            r.completed_at is None,
            r.created_at is None,
            r.duration is None,
    {
        Action {
            id,
            name,
            description: None,
            priority: None,
            contexts: None,
            parent_id: None,
            predecessors: None,
            alias: None,
            is_sequential: None,
            plan_id: None,
            external_schedule_id: None,
            external_occurrence_key: None,
            state: ActionState::NotStarted,
            scheduled_at: None,
            due_date: None,
            completed_at: None,
            created_at: None,
            duration: None,
        }
    }
}

impl Plan {
    /// A plan with nothing but its UUID and name.
    pub fn named(id: u128, name: String) -> (r: Plan)
        ensures
            r.id == id,
            r.name@ == name@,
            r.description is None,
            r.recurrence is None,
            r.due_recurrence is None,
            r.external_id is None,
            r.template_name is None,
            r.dtstart is None,
    {
        Plan {
            id,
            name,
            description: None,
            recurrence: None,
            due_recurrence: None,
            external_id: None,
            template_name: None,
            dtstart: None,
        }
    }
}

impl Charter {
    /// A charter with nothing but its UUID and title.
    pub fn titled(id: u128, title: String) -> (r: Charter)
        ensures
            r.id == id,
            r.title@ == title@,
            r.description is None,
            r.alias is None,
            r.state is None,
            r.parent is None,
            r.plans@.len() == 0,
            r.actions@.len() == 0,
    {
        Charter {
            id,
            title,
            description: None,
            alias: None,
            state: None,
            parent: None,
            plans: Vec::new(),
            actions: Vec::new(),
        }
    }
}

} // verus!
