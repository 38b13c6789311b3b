//! Answering `inject_point` detcalls: the responder, the plan trait, and
//! the rule-table and replay-log plans.
use crate::host::channel::{spec_reported, Channel};
use crate::host::guestmem::GuestMem;
use crate::host::sink::{ChannelWriteSink, SinkEntry};
use crate::text::chars_of;
use crate::wire::ports::{spec_pack, FaultDecision, PORT_INJECT};
use vstd::prelude::*;

verus! {

/// The view of an optional name.
pub open spec fn spec_opt_name(name: Option<&str>) -> Option<Seq<char>> {
    match name {
        Some(n) => Some(n@),
        None => None,
    }
}

/// Decides the answer to an inject query. In recording mode it stands
/// over the fault plan for the burst; in replay mode over the input log.
pub trait FaultPlan {
    /// The decision `decide` gives in this state for these arguments.
    spec fn next_decision(&self, iseq: u32, name_id: u32, name: Option<Seq<char>>) -> FaultDecision;

    /// Whether `after` is this plan once it has decided for these
    /// arguments (a plan's state moves with each decision).
    spec fn decided(&self, after: &Self, iseq: u32, name_id: u32, name: Option<Seq<char>>) -> bool;

    /// Decide for inject point `iseq` with interned name `name_id` (`name`
    /// resolved when the intern table has it).
    fn decide(&mut self, iseq: u32, name_id: u32, name: Option<&str>) -> (r: FaultDecision)
        ensures
            r == old(self).next_decision(iseq, name_id, spec_opt_name(name)),
            old(self).decided(final(self), iseq, name_id, spec_opt_name(name)),
    ;
}

/// Answers `inject_point` detcalls. The PIO handler drains ring W inside
/// the INJECT exit, then calls `answer`.
pub struct InjectResponder<P: FaultPlan> {
    plan: P,
}

impl<P: FaultPlan> InjectResponder<P> {
    /// The wrapped plan.
    pub closed spec fn spec_plan(&self) -> P {
        self.plan
    }

    /// Wrap a fault plan.
    pub fn new(plan: P) -> (r: InjectResponder<P>)
        ensures
            r.spec_plan() == plan,
    {
        InjectResponder { plan }
    }

    /// Borrow the plan (test assertions).
    pub fn plan_mut(&mut self) -> (r: &mut P)
        ensures
            *r == old(self).spec_plan(),
            final(self).spec_plan() == *final(r),
    {
        &mut self.plan
    }

    /// Answer the INJECT detcall for `iseq`: take the matching drained
    /// `InjectQuery`, ask the plan (with the interned name when known),
    /// pack the decision, and report it via `pio_answer`. An unmatched
    /// `iseq` answers 0 (Proceed) and bumps the unmatched-inject metric.
    pub fn answer<M: GuestMem, S: ChannelWriteSink>(&mut self, channel: &mut Channel<M>, iseq: u32, sink: &mut S) -> (r: u32)
        requires
            old(channel).wf(),
            old(channel).counters().1 < u64::MAX,
        ensures
            ({
                let pend = old(channel).pending();
                if pend.contains_key(iseq) {
                    let id = pend[iseq];
                    let name = if old(channel).interns().contains_key(id) {
                        Some(old(channel).interns()[id].0)
                    } else {
                        None
                    };
                    &&& r == spec_pack(old(self).spec_plan().next_decision(iseq, id, name))
                    &&& old(self).spec_plan().decided(&final(self).spec_plan(), iseq, id, name)
                    &&& final(channel).counters() == old(channel).counters()
                } else {
                    &&& r == 0
                    &&& final(self).spec_plan() == old(self).spec_plan()
                    &&& final(channel).counters() == (old(channel).counters().0, (old(channel).counters().1 + 1) as u64, old(channel).counters().2)
                }
            }),
            final(channel).pending() == old(channel).pending().remove(iseq),
            final(channel).interns() == old(channel).interns(),
            final(channel).memory() == old(channel).memory(),
            final(channel).spec_base() == old(channel).spec_base(),
            final(channel).spec_header() == old(channel).spec_header(),
            final(channel).seqs() == old(channel).seqs(),
            final(channel).wf(),
            final(sink).trace() == old(sink).trace().push(SinkEntry::PioAnswer { port: PORT_INJECT, value: r }),
            spec_reported(old(sink).trace(), final(sink).trace(), old(channel).memory(), final(channel).memory(), old(channel).spec_base(), old(channel).spec_header()),
    {
        let value = match channel.take_pending_inject(iseq) {
            Some(name_id) => {
                let d = match channel.intern_name(name_id) {
                    Some(n) => {
                        let owned: String = n.to_owned();
                        self.plan.decide(iseq, name_id, Some(owned.as_str()))
                    },
                    None => self.plan.decide(iseq, name_id, None),
                };
                d.pack()
            },
            None => {
                channel.note_unmatched_inject();
                FaultDecision::Proceed.pack()
            },
        };
        sink.pio_answer(PORT_INJECT, value);
        proof {
            crate::host::channel::lemma_reported_one(old(sink).trace(), channel.memory(), channel.spec_base(), channel.spec_header(), SinkEntry::PioAnswer { port: PORT_INJECT, value });
        }
        value
    }
}

/// `*`-only glob: `*` matches any (possibly empty) run of characters;
/// every other character matches itself.
pub open spec fn spec_glob(p: Seq<char>, t: Seq<char>) -> bool
    decreases p.len(), t.len() + 1, 0int,
{
    if p.len() == 0 {
        t.len() == 0
    } else if p[0] == '*' {
        spec_glob_from(p.drop_first(), t, 0)
    } else {
        t.len() > 0 && t[0] == p[0] && spec_glob(p.drop_first(), t.drop_first())
    }
}

/// `p` matches some suffix of `t` starting at or after `k`.
pub open spec fn spec_glob_from(p: Seq<char>, t: Seq<char>, k: int) -> bool
    decreases p.len(), t.len() + 1 - k, 1int,
{
    if 0 <= k <= t.len() {
        spec_glob(p, t.subrange(k, t.len() as int)) || spec_glob_from(p, t, k + 1)
    } else {
        false
    }
}

/// `glob_from` finds a match at any later start up to the text's end.
proof fn lemma_glob_from_reaches(p: Seq<char>, t: Seq<char>, k: int, k2: int)
    requires
        0 <= k <= k2 <= t.len(),
        spec_glob(p, t.subrange(k2, t.len() as int)),
    ensures
        spec_glob_from(p, t, k),
    decreases k2 - k,
{
    if k < k2 {
        lemma_glob_from_reaches(p, t, k + 1, k2);
    }
}

/// A `glob_from` match starts somewhere from `k` to the text's end.
proof fn lemma_glob_from_start(p: Seq<char>, t: Seq<char>, k: int)
    requires
        spec_glob_from(p, t, k),
    ensures
        exists|k2: int| k <= k2 <= t.len() && #[trigger] spec_glob(p, t.subrange(k2, t.len() as int)),
    decreases t.len() + 1 - k,
{
    if 0 <= k <= t.len() && !spec_glob(p, t.subrange(k, t.len() as int)) {
        lemma_glob_from_start(p, t, k + 1);
    }
}

/// A `*` matches any run of characters: whatever text `a` comes first,
/// `*` followed by `p` matches `a + b` whenever `p` matches `b`.
pub proof fn lemma_star_absorbs_prefix(p: Seq<char>, a: Seq<char>, b: Seq<char>)
    requires
        spec_glob(p, b),
    ensures
        spec_glob(seq!['*'] + p, a + b),
{
    let s = seq!['*'] + p;
    let t = a + b;
    assert(s.drop_first() =~= p);
    assert(t.subrange(a.len() as int, t.len() as int) =~= b);
    lemma_glob_from_reaches(p, t, 0, a.len() as int);
}

/// And a `*` matches nothing else: when `*` followed by `p` matches `t`,
/// `p` matches some suffix of `t`.
pub proof fn lemma_star_needs_suffix(p: Seq<char>, t: Seq<char>)
    requires
        spec_glob(seq!['*'] + p, t),
    ensures
        exists|k: int| 0 <= k <= t.len() && #[trigger] spec_glob(p, t.subrange(k, t.len() as int)),
{
    let s = seq!['*'] + p;
    assert(s.drop_first() =~= p);
    lemma_glob_from_start(p, t, 0);
}

/// A pattern with no `*` matches exactly the text equal to it.
pub proof fn lemma_literal_glob(p: Seq<char>, t: Seq<char>)
    requires
        forall|i: int| 0 <= i < p.len() ==> p[i] != '*',
    ensures
        spec_glob(p, t) <==> p == t,
    decreases p.len(),
{
    if p.len() > 0 {
        lemma_literal_glob(p.drop_first(), t.drop_first());
        if t.len() > 0 && t[0] == p[0] && p.drop_first() == t.drop_first() {
            assert(p =~= seq![p[0]] + p.drop_first());
            assert(t =~= seq![t[0]] + t.drop_first());
        }
        if p == t {
            assert(p.drop_first() =~= t.drop_first());
        }
    } else {
        if t.len() == 0 {
            assert(p =~= t);
        }
    }
}

fn glob_chars(p: &[char], t: &[char]) -> (r: bool)
    ensures
        r == spec_glob(p@, t@),
    decreases p@.len(),
{
    if p.len() == 0 {
        return t.len() == 0;
    }
    let rest = &p[1..p.len()];
    proof {
        assert(rest@ =~= p@.drop_first());
    }
    if p[0] == '*' {
        let mut k: usize = 0;
        loop
            invariant
                k <= t@.len(),
                rest@ == p@.drop_first(),
                p@.len() > 0 && p@[0] == '*',
                spec_glob(p@, t@) == spec_glob_from(rest@, t@, k as int),
            decreases t@.len() - k,
        {
            let tk = &t[k..t.len()];
            proof {
                assert(tk@ =~= t@.subrange(k as int, t@.len() as int));
            }
            if glob_chars(rest, tk) {
                return true;
            }
            if k == t.len() {
                assert(!spec_glob_from(rest@, t@, k as int + 1));
                return false;
            }
            k = k + 1;
        }
    } else {
        if t.len() == 0 || t[0] != p[0] {
            return false;
        }
        let tr = &t[1..t.len()];
        proof {
            assert(tr@ =~= t@.drop_first());
        }
        glob_chars(rest, tr)
    }
}

/// Whether `text` matches the `*`-only glob `pattern`.
pub fn glob_match(pattern: &str, text: &str) -> (r: bool)
    ensures
        r == spec_glob(pattern@, text@),
{
    let p = chars_of(pattern);
    let t = chars_of(text);
    glob_chars(p.as_slice(), t.as_slice())
}

/// One rule in a `TableFaultPlan`.
#[derive(Debug, Clone)]
pub struct FaultRule {
    /// Glob over the inject point name (`*` matches any run of
    /// characters). Unresolvable names never match a glob other than `*`.
    pub name_glob: String,
    /// Match only the n-th occurrence (0-based) of this rule's glob;
    /// `None` matches every occurrence.
    pub occurrence: Option<u32>,
    /// The decision to return on match.
    pub decision: FaultDecision,
}

/// A rule's glob accepts the (possibly unresolved) name.
pub open spec fn spec_rule_matches(glob: Seq<char>, name: Option<Seq<char>>) -> bool {
    match name {
        Some(n) => spec_glob(glob, n),
        None => glob == seq!['*'],
    }
}

/// The rule-table decision: the first rule, from `i` on, whose glob
/// accepts the name and whose occurrence filter accepts its hit count.
pub open spec fn spec_table_pick(rules: Seq<FaultRule>, hits: Seq<u32>, name: Option<Seq<char>>, i: int) -> FaultDecision
    decreases rules.len() - i,
{
    if i < 0 || i >= rules.len() || i >= hits.len() {
        FaultDecision::Proceed
    } else if spec_rule_matches(rules[i].name_glob@, name) && (rules[i].occurrence is None
        || rules[i].occurrence == Some(hits[i])) {
        rules[i].decision
    } else {
        spec_table_pick(rules, hits, name, i + 1)
    }
}

/// The hit counts after a rule-table decision: from rule `i` on, each
/// rule whose glob accepts the name counts one hit (wrapping), up to and
/// including the rule that fires.
pub open spec fn spec_table_hits(rules: Seq<FaultRule>, hits: Seq<u32>, name: Option<Seq<char>>, i: int) -> Seq<u32>
    decreases rules.len() - i,
{
    if i < 0 || i >= rules.len() || i >= hits.len() {
        hits
    } else if spec_rule_matches(rules[i].name_glob@, name) {
        let h2 = hits.update(i, hits[i].wrapping_add(1));
        if rules[i].occurrence is None || rules[i].occurrence == Some(hits[i]) {
            h2
        } else {
            spec_table_hits(rules, h2, name, i + 1)
        }
    } else {
        spec_table_hits(rules, hits, name, i + 1)
    }
}

/// Test-oriented plan: a rule table matched by name glob and occurrence
/// index (first matching rule wins; no match ⇒ Proceed). Every rule whose
/// glob matches counts one hit, up to the winning rule.
#[derive(Debug)]
pub struct TableFaultPlan {
    rules: Vec<FaultRule>,
    hits: Vec<u32>,
    /// Every decision made, in order.
    pub decisions: Vec<(u32, FaultDecision)>,
}

impl Default for TableFaultPlan {
    fn default() -> (r: TableFaultPlan)
        ensures
            r.spec_rules().len() == 0,
            r.spec_decisions().len() == 0,
    {
        TableFaultPlan { rules: Vec::new(), hits: Vec::new(), decisions: Vec::new() }
    }
}

impl TableFaultPlan {
    /// The rules.
    pub closed spec fn spec_rules(&self) -> Seq<FaultRule> {
        self.rules@
    }

    /// Decisions made so far.
    pub closed spec fn spec_decisions(&self) -> Seq<(u32, FaultDecision)> {
        self.decisions@
    }

    /// Per-rule glob-match counts.
    pub closed spec fn spec_hits(&self) -> Seq<u32> {
        self.hits@
    }

    /// Build from rules; every hit count starts at 0.
    pub fn new(rules: Vec<FaultRule>) -> (r: TableFaultPlan)
        ensures
            r.spec_rules() == rules@,
            r.spec_hits() == Seq::new(rules@.len(), |i: int| 0u32),
            r.spec_decisions().len() == 0,
    {
        let n = rules.len();
        let hits: Vec<u32> = vec![0u32; n];
        proof {
            assert(hits@ =~= Seq::new(rules@.len(), |i: int| 0u32));
        }
        TableFaultPlan { rules, hits, decisions: Vec::new() }
    }
}

impl FaultPlan for TableFaultPlan {
    /// The first rule, in table order, whose glob accepts the name and
    /// whose occurrence filter accepts its hit count.
    open spec fn next_decision(&self, iseq: u32, name_id: u32, name: Option<Seq<char>>) -> FaultDecision {
        spec_table_pick(self.spec_rules(), self.spec_hits(), name, 0)
    }

    /// The rules stay, the hit counts move as `spec_table_hits` says, and
    /// the decision is appended to the record.
    open spec fn decided(&self, after: &Self, iseq: u32, name_id: u32, name: Option<Seq<char>>) -> bool {
        &&& after.spec_rules() == self.spec_rules()
        &&& after.spec_hits() == spec_table_hits(self.spec_rules(), self.spec_hits(), name, 0)
        &&& after.spec_decisions() == self.spec_decisions().push(
            (iseq, self.next_decision(iseq, name_id, name)),
        )
    }

    fn decide(&mut self, iseq: u32, name_id: u32, name: Option<&str>) -> (r: FaultDecision)
        ensures
            final(self).spec_decisions() == old(self).spec_decisions().push((iseq, r)),
            final(self).spec_rules() == old(self).spec_rules(),
            final(self).spec_hits() == spec_table_hits(old(self).spec_rules(), old(self).spec_hits(), spec_opt_name(name), 0),
    {
        let mut out = FaultDecision::Proceed;
        let ghost rules0 = self.rules@;
        let ghost hits0 = self.hits@;
        let ghost nm = spec_opt_name(name);
        let mut i: usize = 0;
        while i < self.rules.len() && i < self.hits.len()
            invariant_except_break
                forall|j: int| i <= j < hits0.len() ==> #[trigger] self.hits@[j] == hits0[j],
                out == FaultDecision::Proceed,
                spec_table_pick(rules0, hits0, nm, 0) == spec_table_pick(rules0, hits0, nm, i as int),
                spec_table_hits(rules0, hits0, nm, 0) == spec_table_hits(rules0, self.hits@, nm, i as int),
            invariant
                self.rules@ == rules0,
                self.hits@.len() == hits0.len(),
                self.decisions@ == old(self).decisions@,
                rules0 == old(self).rules@,
                hits0 == old(self).hits@,
                nm == spec_opt_name(name),
                i <= rules0.len(),
            ensures
                spec_table_pick(rules0, hits0, nm, 0) == out,
                self.hits@ == spec_table_hits(rules0, hits0, nm, 0),
                self.rules@ == rules0,
                self.hits@.len() == hits0.len(),
                self.decisions@ == old(self).decisions@,
            decreases rules0.len() - i,
        {
            let rule = &self.rules[i];
            let glob = rule.name_glob.as_str();
            let matches_name = match name {
                Some(n) => glob_match(glob, n),
                None => {
                    let gc = chars_of(glob);
                    let star = gc.len() == 1 && gc[0] == '*';
                    proof {
                        assert(star == (gc@ =~= seq!['*']));
                    }
                    star
                },
            };
            if !matches_name {
                i = i + 1;
                continue;
            }
            let occ = self.hits[i];
            self.hits.set(i, occ.wrapping_add(1));
            let hit = match rule.occurrence {
                None => true,
                Some(o) => o == occ,
            };
            if hit {
                out = rule.decision;
                break;
            }
            i = i + 1;
        }
        self.decisions.push((iseq, out));
        out
    }
}

/// One recorded replay decision: the input to `LogFaultPlan`.
#[derive(Debug, Clone, Copy, PartialEq, Eq, Structural)]
pub struct LoggedDecision {
    /// The inject sequence number the decision was recorded at.
    pub iseq: u32,
    /// The interned point name the query carried.
    pub name_id: u32,
    /// The decision to replay verbatim.
    pub decision: FaultDecision,
}

/// One replay divergence a `LogFaultPlan` detected.
#[allow(inconsistent_fields)]
#[derive(Debug, Clone, Copy, PartialEq, Eq, Structural)]
pub enum LogDivergence {
    /// The query's iseq did not match the log entry at the cursor.
    IseqMismatch {
        /// iseq the log expected at this position.
        expected: u32,
        /// iseq the replay run actually asked.
        got: u32,
    },
    /// The iseq matched but the query carried a different name_id.
    NameIdMismatch {
        /// The (matching) iseq.
        iseq: u32,
        /// name_id the log recorded.
        expected: u32,
        /// name_id the replay run actually asked.
        got: u32,
    },
    /// A query arrived after the log was exhausted.
    PastEnd {
        /// iseq of the unanswerable query.
        got: u32,
    },
}

/// Replay-mode plan: a cursor over recorded decisions, returned verbatim.
/// Every divergence (iseq mismatch, name_id mismatch, past-end query)
/// answers Proceed, consumes the cursor slot when there is one, and is
/// recorded for the replay gate. A default plan has an empty log.
#[derive(Debug)]
pub struct LogFaultPlan {
    log: Vec<LoggedDecision>,
    cursor: usize,
    divergences: Vec<LogDivergence>,
}

impl Default for LogFaultPlan {
    fn default() -> (r: LogFaultPlan)
        ensures
            r.spec_log().len() == 0,
            r.spec_cursor() == 0,
            r.spec_divergences().len() == 0,
    {
        LogFaultPlan { log: Vec::new(), cursor: 0, divergences: Vec::new() }
    }
}

impl LogFaultPlan {
    /// The supplied decisions.
    pub closed spec fn spec_log(&self) -> Seq<LoggedDecision> {
        self.log@
    }

    /// Log entries consumed so far.
    pub closed spec fn spec_cursor(&self) -> int {
        self.cursor as int
    }

    /// Divergences detected so far.
    pub closed spec fn spec_divergences(&self) -> Seq<LogDivergence> {
        self.divergences@
    }

    /// Build over supplied replay decisions, in recorded order.
    pub fn new(decisions: Vec<LoggedDecision>) -> (r: LogFaultPlan)
        ensures
            r.spec_log() == decisions@,
            r.spec_cursor() == 0,
            r.spec_divergences().len() == 0,
    {
        LogFaultPlan { log: decisions, cursor: 0, divergences: Vec::new() }
    }

    /// Every divergence detected so far, in query order.
    pub fn divergences(&self) -> (r: &[LogDivergence])
        ensures
            r@ == self.spec_divergences(),
    {
        self.divergences.as_slice()
    }

    /// Log entries not yet consumed (nonzero at the end of a run means the
    /// replay asked fewer questions than the record leg).
    pub fn remaining(&self) -> (r: usize)
        ensures
            r == if self.spec_log().len() >= self.spec_cursor() {
                self.spec_log().len() - self.spec_cursor()
            } else {
                0
            },
    {
        self.log.len().saturating_sub(self.cursor)
    }
}

/// One replay query against a log at cursor `c` with divergences `divs`:
/// the answer, the next cursor and the divergences after it.
pub open spec fn spec_log_step(
    log: Seq<LoggedDecision>,
    c: int,
    divs: Seq<LogDivergence>,
    iseq: u32,
    name_id: u32,
) -> (FaultDecision, int, Seq<LogDivergence>) {
    if c >= log.len() {
        (FaultDecision::Proceed, c, divs.push(LogDivergence::PastEnd { got: iseq }))
    } else if log[c].iseq != iseq {
        (FaultDecision::Proceed, c + 1, divs.push(LogDivergence::IseqMismatch { expected: log[c].iseq, got: iseq }))
    } else if log[c].name_id != name_id {
        (
            FaultDecision::Proceed,
            c + 1,
            divs.push(LogDivergence::NameIdMismatch { iseq, expected: log[c].name_id, got: name_id }),
        )
    } else {
        (log[c].decision, c + 1, divs)
    }
}

/// A run of replay queries `(iseq, name_id)`, in order: the answers, the
/// final cursor and the divergences.
pub open spec fn spec_log_run(
    log: Seq<LoggedDecision>,
    c: int,
    divs: Seq<LogDivergence>,
    qs: Seq<(u32, u32)>,
) -> (Seq<FaultDecision>, int, Seq<LogDivergence>)
    decreases qs.len(),
{
    if qs.len() == 0 {
        (Seq::empty(), c, divs)
    } else {
        let (d, c1, divs1) = spec_log_step(log, c, divs, qs[0].0, qs[0].1);
        let (ds, c2, divs2) = spec_log_run(log, c1, divs1, qs.drop_first());
        (seq![d] + ds, c2, divs2)
    }
}

/// Replay gives back the record leg's decisions verbatim: a run that asks
/// the logged queries from the cursor on, in order, gets each logged
/// decision, moves the cursor past them, and records no divergence.
pub proof fn lemma_log_replays_verbatim(log: Seq<LoggedDecision>, c: int, divs: Seq<LogDivergence>, n: int)
    requires
        0 <= c,
        0 <= n,
        c + n <= log.len(),
    ensures
        spec_log_run(log, c, divs, Seq::new(n as nat, |i: int| (log[c + i].iseq, log[c + i].name_id)))
            == (Seq::new(n as nat, |i: int| log[c + i].decision), c + n, divs),
    decreases n,
{
    let qs = Seq::new(n as nat, |i: int| (log[c + i].iseq, log[c + i].name_id));
    if n > 0 {
        lemma_log_replays_verbatim(log, c + 1, divs, n - 1);
        let qs1 = Seq::new((n - 1) as nat, |i: int| (log[c + 1 + i].iseq, log[c + 1 + i].name_id));
        assert(qs.drop_first() =~= qs1);
        let ds1 = Seq::new((n - 1) as nat, |i: int| log[c + 1 + i].decision);
        assert(seq![log[c].decision] + ds1 =~= Seq::new(n as nat, |i: int| log[c + i].decision));
    } else {
        assert(Seq::new(n as nat, |i: int| log[c + i].decision) =~= Seq::<FaultDecision>::empty());
    }
}

/// The answer a replay query `q` gets at log position `i`: the logged
/// decision when the entry is there and matches, `Proceed` otherwise.
pub open spec fn spec_log_answer(log: Seq<LoggedDecision>, i: int, q: (u32, u32)) -> FaultDecision {
    if 0 <= i < log.len() && log[i].iseq == q.0 && log[i].name_id == q.1 {
        log[i].decision
    } else {
        FaultDecision::Proceed
    }
}

/// How many of the queries `qs`, asked from log position `c` on, diverge:
/// past the log's end, or not matching their entry.
pub open spec fn spec_log_divergent(log: Seq<LoggedDecision>, c: int, qs: Seq<(u32, u32)>) -> nat
    decreases qs.len(),
{
    if qs.len() == 0 {
        0
    } else {
        let q = qs[0];
        let miss: nat = if c >= log.len() || log[c].iseq != q.0 || log[c].name_id != q.1 {
            1
        } else {
            0
        };
        miss + spec_log_divergent(log, if c >= log.len() { c } else { c + 1 }, qs.drop_first())
    }
}

/// Any run of replay queries against a log, from a cursor within it: query
/// `j` gets the logged decision at `c + j` when that entry exists and
/// matches it and `Proceed` otherwise, the cursor ends at `c` plus the
/// queries asked but not past the log's end, and one divergence is
/// recorded for each query past the end or not matching its entry.
pub proof fn lemma_log_run(log: Seq<LoggedDecision>, c: int, divs: Seq<LogDivergence>, qs: Seq<(u32, u32)>)
    requires
        0 <= c <= log.len(),
    ensures
        ({
            let (ds, c2, divs2) = spec_log_run(log, c, divs, qs);
            &&& ds.len() == qs.len()
            &&& forall|j: int| 0 <= j < qs.len() ==> #[trigger] ds[j] == spec_log_answer(log, c + j, qs[j])
            &&& c2 == if c + qs.len() <= log.len() { c + qs.len() } else { log.len() as int }
            &&& divs2.len() == divs.len() + spec_log_divergent(log, c, qs)
            &&& divs2.subrange(0, divs.len() as int) == divs
        }),
    decreases qs.len(),
{
    if qs.len() > 0 {
        let (d, c1, divs1) = spec_log_step(log, c, divs, qs[0].0, qs[0].1);
        lemma_log_run(log, c1, divs1, qs.drop_first());
        let (ds, c2, divs2) = spec_log_run(log, c, divs, qs);
        let (ds1, c3, divs3) = spec_log_run(log, c1, divs1, qs.drop_first());
        assert(ds == seq![d] + ds1);
        assert forall|j: int| 0 <= j < qs.len() implies #[trigger] ds[j] == spec_log_answer(log, c + j, qs[j]) by {
            if j > 0 {
                assert(ds[j] == ds1[j - 1]);
                assert(qs.drop_first()[j - 1] == qs[j]);
                if c1 == c {
                    // past the end: both answers are Proceed
                    assert(c >= log.len());
                }
            }
        }
        assert(divs3.subrange(0, divs1.len() as int) == divs1);
        assert(divs1.subrange(0, divs.len() as int) =~= divs);
        assert(divs3.subrange(0, divs.len() as int) =~= divs1.subrange(0, divs.len() as int));
        assert(ds.len() == qs.len());
        assert(c2 == c3);
        assert(c2 == if c + qs.len() <= log.len() { c + qs.len() } else { log.len() as int });
        assert(divs2.len() == divs.len() + spec_log_divergent(log, c, qs));
        assert(divs2.subrange(0, divs.len() as int) == divs);
    } else {
        assert(divs.subrange(0, divs.len() as int) =~= divs);
    }
}

impl FaultPlan for LogFaultPlan {
    /// The logged decision at the cursor when the query matches it,
    /// `Proceed` otherwise.
    open spec fn next_decision(&self, iseq: u32, name_id: u32, name: Option<Seq<char>>) -> FaultDecision {
        spec_log_step(self.spec_log(), self.spec_cursor(), self.spec_divergences(), iseq, name_id).0
    }

    /// The log stays; the cursor and the divergences move by one step.
    open spec fn decided(&self, after: &Self, iseq: u32, name_id: u32, name: Option<Seq<char>>) -> bool {
        let (_, c, divs) = spec_log_step(self.spec_log(), self.spec_cursor(), self.spec_divergences(), iseq, name_id);
        &&& after.spec_log() == self.spec_log()
        &&& after.spec_cursor() == c
        &&& after.spec_divergences() == divs
    }

    fn decide(&mut self, iseq: u32, name_id: u32, name: Option<&str>) -> (r: FaultDecision)
        ensures
            final(self).spec_log() == old(self).spec_log(),
            (r, final(self).spec_cursor(), final(self).spec_divergences()) == spec_log_step(
                old(self).spec_log(),
                old(self).spec_cursor(),
                old(self).spec_divergences(),
                iseq,
                name_id,
            ),
            ({
                let c = old(self).spec_cursor();
                let log = old(self).spec_log();
                if c >= log.len() {
                    &&& final(self).spec_cursor() == c
                    &&& final(self).spec_divergences() == old(self).spec_divergences().push(
                        LogDivergence::PastEnd { got: iseq },
                    )
                } else {
                    &&& final(self).spec_cursor() == c + 1
                    &&& final(self).spec_divergences() == if log[c].iseq != iseq {
                        old(self).spec_divergences().push(
                            LogDivergence::IseqMismatch { expected: log[c].iseq, got: iseq },
                        )
                    } else if log[c].name_id != name_id {
                        old(self).spec_divergences().push(
                            LogDivergence::NameIdMismatch { iseq, expected: log[c].name_id, got: name_id },
                        )
                    } else {
                        old(self).spec_divergences()
                    }
                }
            }),
    {
        if self.cursor >= self.log.len() {
            self.divergences.push(LogDivergence::PastEnd { got: iseq });
            return FaultDecision::Proceed;
        }
        let entry = self.log[self.cursor];
        self.cursor = self.cursor + 1;
        if entry.iseq != iseq {
            self.divergences.push(LogDivergence::IseqMismatch { expected: entry.iseq, got: iseq });
            return FaultDecision::Proceed;
        }
        if entry.name_id != name_id {
            self.divergences.push(LogDivergence::NameIdMismatch { iseq, expected: entry.name_id, got: name_id });
            return FaultDecision::Proceed;
        }
        entry.decision
    }
}

} // verus!
