//! The dump model: a scope tree kept as an arena, the signal registry and one
//! waveform per signal, built by one left-to-right fold over the commands.
use crate::ast::{
    ChangeView, DeclView, DeclarationCommand, DefinitionView, SimView, SimulationCommand,
    SimulationValueChange, ValueChangeDumpDefinition,
};
use crate::grammar::{SyntaxError, parse_result_view, parse_spec};
use crate::text::{decimal, push_decimal, push_str_chars};
use vstd::prelude::*;

verus! {

/// One recorded value: the simulation time and the value text.
#[derive(Debug)]
pub struct ValueChange {
    pub time: usize,
    pub value: String,
}

/// The value changes of one signal, in recording order.
#[derive(Debug)]
pub struct ValueChangeDumpWave {
    pub value_changes: Vec<ValueChange>,
}

#[derive(Debug)]
pub struct ValueChangeDumpSignal {
    pub kind: String,
    pub identifier: String,
    pub reference: String,
    pub size: usize,
}

/// A scope of the arena: its child scopes and its parent are arena indices
/// (the root, at index 0, has no parent), its signals are registry indices.
#[derive(Debug)]
pub struct ValueChangeDumpScope {
    pub name: String,
    pub kind: String,
    pub scopes: Vec<usize>,
    pub parent: Option<usize>,
    pub signals: Vec<usize>,
}

/// A whole dump. `signals` lists the declared signals in declaration order;
/// `wave_map[k]` is the waveform of `signals[k]`.
#[derive(Debug)]
pub struct ValueChangeDump {
    pub date: String,
    pub version: String,
    pub timescale: String,
    pub scopes: Vec<ValueChangeDumpScope>,
    pub signals: Vec<ValueChangeDumpSignal>,
    pub wave_map: Vec<ValueChangeDumpWave>,
}

#[derive(Debug, Clone, Copy, PartialEq, Eq, Structural)]
pub enum ModelError {
    /// A `$var` reuses an identifier code that is already declared.
    DuplicateIdentifier,
    /// A value change names an identifier code that was never declared.
    UnknownIdentifier,
    /// An `$upscope` while the root scope is the active one.
    UpscopeAtRoot,
}

pub struct SignalView {
    pub kind: Seq<char>,
    pub identifier: Seq<char>,
    pub reference: Seq<char>,
    pub size: usize,
}

pub struct ScopeView {
    pub name: Seq<char>,
    pub kind: Seq<char>,
    pub scopes: Seq<usize>,
    pub parent: Option<usize>,
    pub signals: Seq<usize>,
}

/// A recorded value: time and value text.
pub type ChangeRecord = (usize, Seq<char>);

pub struct DumpView {
    pub date: Seq<char>,
    pub version: Seq<char>,
    pub timescale: Seq<char>,
    pub scopes: Seq<ScopeView>,
    pub signals: Seq<SignalView>,
    pub waves: Seq<Seq<ChangeRecord>>,
}

impl View for ValueChange {
    type V = ChangeRecord;

    open spec fn view(&self) -> ChangeRecord {
        (self.time, self.value@)
    }
}

impl View for ValueChangeDumpWave {
    type V = Seq<ChangeRecord>;

    open spec fn view(&self) -> Seq<ChangeRecord> {
        self.value_changes@.map_values(|c: ValueChange| c@)
    }
}

impl View for ValueChangeDumpSignal {
    type V = SignalView;

    open spec fn view(&self) -> SignalView {
        SignalView {
            kind: self.kind@,
            identifier: self.identifier@,
            reference: self.reference@,
            size: self.size,
        }
    }
}

impl View for ValueChangeDumpScope {
    type V = ScopeView;

    open spec fn view(&self) -> ScopeView {
        ScopeView {
            name: self.name@,
            kind: self.kind@,
            scopes: self.scopes@,
            parent: self.parent,
            signals: self.signals@,
        }
    }
}

impl View for ValueChangeDump {
    type V = DumpView;

    open spec fn view(&self) -> DumpView {
        DumpView {
            date: self.date@,
            version: self.version@,
            timescale: self.timescale@,
            scopes: self.scopes@.map_values(|s: ValueChangeDumpScope| s@),
            signals: self.signals@.map_values(|s: ValueChangeDumpSignal| s@),
            waves: self.wave_map@.map_values(|w: ValueChangeDumpWave| w@),
        }
    }
}

/// A dump with nothing but an unnamed root scope.
pub open spec fn empty_dump() -> DumpView {
    DumpView {
        date: seq![],
        version: seq![],
        timescale: seq![],
        scopes: seq![
            ScopeView {
                name: seq![],
                kind: seq![],
                scopes: seq![],
                parent: None,
                signals: seq![],
            },
        ],
        signals: seq![],
        waves: seq![],
    }
}

/// Whether some declared signal has identifier code `code`.
pub open spec fn is_declared(d: DumpView, code: Seq<char>) -> bool {
    exists|k: int| 0 <= k < d.signals.len() && #[trigger] d.signals[k].identifier == code
}

/// The registry index of the signal with identifier code `code`.
pub open spec fn signal_index(d: DumpView, code: Seq<char>) -> int {
    choose|k: int| 0 <= k < d.signals.len() && #[trigger] d.signals[k].identifier == code
}

/// One declaration applied to a dump whose active scope is `a`: the new dump
/// and the new active scope.
pub open spec fn decl_step(d: DumpView, a: int, c: DeclView) -> Result<(DumpView, int), ModelError> {
    match c {
        DeclView::Comment(_) => Ok((d, a)),
        DeclView::EndDefinitions => Ok((d, a)),
        DeclView::Date(v) => Ok((DumpView { date: v, ..d }, a)),
        DeclView::Version(v) => Ok((DumpView { version: v, ..d }, a)),
        DeclView::Timescale(n, u) => Ok((DumpView { timescale: decimal(n as nat) + u, ..d }, a)),
        DeclView::Scope(kind, name) => {
            let idx = d.scopes.len();
            let top = d.scopes[a];
            let child = ScopeView {
                name,
                kind,
                scopes: seq![],
                parent: Some(a as usize),
                signals: seq![],
            };
            Ok(
                (
                    DumpView {
                        scopes: d.scopes.update(
                            a,
                            ScopeView { scopes: top.scopes.push(idx as usize), ..top },
                        ).push(child),
                        ..d
                    },
                    idx as int,
                ),
            )
        },
        DeclView::Upscope => match d.scopes[a].parent {
            Some(p) => Ok((d, p as int)),
            None => Err(ModelError::UpscopeAtRoot),
        },
        DeclView::Var(kind, size, code, reference) => {
            if is_declared(d, code) {
                Err(ModelError::DuplicateIdentifier)
            } else {
                let idx = d.signals.len();
                let top = d.scopes[a];
                let sig = SignalView { kind, identifier: code, reference, size };
                Ok(
                    (
                        DumpView {
                            scopes: d.scopes.update(
                                a,
                                ScopeView { signals: top.signals.push(idx as usize), ..top },
                            ),
                            signals: d.signals.push(sig),
                            waves: d.waves.push(seq![]),
                            ..d
                        },
                        a,
                    ),
                )
            }
        },
    }
}

/// The declarations folded from the empty dump, the root scope active first.
pub open spec fn decls_fold(ds: Seq<DeclView>) -> Result<(DumpView, int), ModelError>
    decreases ds.len(),
{
    if ds.len() == 0 {
        Ok((empty_dump(), 0))
    } else {
        match decls_fold(ds.drop_last()) {
            Ok((d, a)) => decl_step(d, a, ds.last()),
            Err(e) => Err(e),
        }
    }
}

/// A value change recorded at time `t`.
pub open spec fn change_step(d: DumpView, t: usize, c: ChangeView) -> Result<DumpView, ModelError> {
    if is_declared(d, c.code()) {
        let k = signal_index(d, c.code());
        Ok(DumpView { waves: d.waves.update(k, d.waves[k].push((t, c.value()))), ..d })
    } else {
        Err(ModelError::UnknownIdentifier)
    }
}

/// Value changes recorded one after the other at time `t`.
pub open spec fn changes_fold(d: DumpView, t: usize, cs: Seq<ChangeView>) -> Result<
    DumpView,
    ModelError,
>
    decreases cs.len(),
{
    if cs.len() == 0 {
        Ok(d)
    } else {
        match changes_fold(d, t, cs.drop_last()) {
            Ok(d2) => change_step(d2, t, cs.last()),
            Err(e) => Err(e),
        }
    }
}

/// One simulation command applied at current time `t`.
pub open spec fn sim_step(d: DumpView, t: usize, c: SimView) -> Result<(DumpView, usize), ModelError> {
    match c {
        SimView::Keyword(_, cs) => match changes_fold(d, t, cs) {
            Ok(d2) => Ok((d2, t)),
            Err(e) => Err(e),
        },
        SimView::Comment(_) => Ok((d, t)),
        SimView::Time(t2) => Ok((d, t2)),
        SimView::Change(ch) => match change_step(d, t, ch) {
            Ok(d2) => Ok((d2, t)),
            Err(e) => Err(e),
        },
    }
}

/// The simulation commands folded over `d`, the current time starting at 0.
pub open spec fn sims_fold(d: DumpView, ss: Seq<SimView>) -> Result<(DumpView, usize), ModelError>
    decreases ss.len(),
{
    if ss.len() == 0 {
        Ok((d, 0))
    } else {
        match sims_fold(d, ss.drop_last()) {
            Ok((d2, t)) => sim_step(d2, t, ss.last()),
            Err(e) => Err(e),
        }
    }
}

/// The dump that a command sequence describes.
pub open spec fn build_spec(def: DefinitionView) -> Result<DumpView, ModelError> {
    match decls_fold(def.declarations) {
        Ok((d, _)) => match sims_fold(d, def.simulation) {
            Ok((d2, _)) => Ok(d2),
            Err(e) => Err(e),
        },
        Err(e) => Err(e),
    }
}

pub open spec fn model_result_view(r: Result<ValueChangeDump, ModelError>) -> Result<
    DumpView,
    ModelError,
> {
    match r {
        Ok(d) => Ok(d@),
        Err(e) => Err(e),
    }
}

/// The arena is a tree rooted at index 0: the root has no parent; every other
/// scope names a parent with a smaller index, which lists it as a child; every
/// child listed names the scope listing it as its parent; child lists are
/// strictly increasing.
pub open spec fn scopes_wf(s: Seq<ScopeView>) -> bool {
    &&& s.len() >= 1
    &&& s[0].parent is None
    &&& forall|c: int|
        0 < c < s.len() ==> (#[trigger] s[c].parent matches Some(p) && p < c && s[p as int].scopes.contains(
            c as usize,
        ))
    &&& forall|p: int, k: int|
        0 <= p < s.len() && 0 <= k < s[p].scopes.len() ==> 0 < #[trigger] s[p].scopes[k] < s.len()
            && s[s[p].scopes[k] as int].parent == Some(p as usize)
    &&& forall|p: int, k1: int, k2: int|
        0 <= p < s.len() && 0 <= k1 < k2 < s[p].scopes.len() ==> #[trigger] s[p].scopes[k1]
            < #[trigger] s[p].scopes[k2]
}

/// Identifier codes are unique, each signal has a waveform, and scopes list
/// registered signals only.
pub open spec fn registry_wf(d: DumpView) -> bool {
    &&& d.waves.len() == d.signals.len()
    &&& forall|i: int, j: int|
        0 <= i < j < d.signals.len() ==> #[trigger] d.signals[i].identifier
            != #[trigger] d.signals[j].identifier
    &&& forall|p: int, k: int|
        0 <= p < d.scopes.len() && 0 <= k < d.scopes[p].signals.len()
            ==> #[trigger] d.scopes[p].signals[k] < d.signals.len()
}

pub open spec fn dump_wf(d: DumpView) -> bool {
    scopes_wf(d.scopes) && registry_wf(d)
}

/// A dump whose active scope is `a`, during the declaration fold.
pub open spec fn state_wf(d: DumpView, a: int) -> bool {
    dump_wf(d) && 0 <= a < d.scopes.len()
}

proof fn lemma_decl_step_wf(d: DumpView, a: int, c: DeclView)
    requires
        state_wf(d, a),
        d.scopes.len() <= usize::MAX,
        d.signals.len() <= usize::MAX,
    ensures
        decl_step(d, a, c) matches Ok((d2, a2)) ==> state_wf(d2, a2),
{
    let s = d.scopes;
    match c {
        DeclView::Scope(kind, name) => {
            let (d2, a2) = decl_step(d, a, c)->Ok_0;
            let s2 = d2.scopes;
            let idx = s.len() as int;
            assert(s2.len() == idx + 1);
            assert forall|x: int| 0 <= x < idx implies #[trigger] s2[x].parent == s[x].parent
                && s2[x].signals == s[x].signals && (x != a ==> s2[x].scopes == s[x].scopes) by {}
            assert(s2[a].scopes == s[a].scopes.push(idx as usize));
            assert forall|x: int| 0 < x < s2.len() implies (#[trigger] s2[x].parent matches Some(
                p,
            ) && p < x && s2[p as int].scopes.contains(x as usize)) by {
                if x == idx {
                    assert(s2[a].scopes.last() == idx as usize);
                } else {
                    let p = s[x].parent->Some_0;
                    let k = choose|k: int| 0 <= k < s[p as int].scopes.len() && s[p as int].scopes[k] == x as usize;
                    assert(s2[p as int].scopes[k] == x as usize);
                }
            }
            assert forall|p: int, k: int|
                0 <= p < s2.len() && 0 <= k < s2[p].scopes.len() implies 0
                < #[trigger] s2[p].scopes[k] < s2.len() && s2[s2[p].scopes[k] as int].parent == Some(
                p as usize,
            ) by {
                if p < idx && !(p == a && k == s[a].scopes.len()) {
                    assert(s2[p].scopes[k] == s[p].scopes[k]);
                }
            }
            assert forall|p: int, k1: int, k2: int|
                0 <= p < s2.len() && 0 <= k1 < k2 < s2[p].scopes.len() implies #[trigger] s2[p].scopes[k1]
                < #[trigger] s2[p].scopes[k2] by {
                if p == a && k2 == s[a].scopes.len() {
                    assert(s[a].scopes[k1] < s.len());
                }
            }
            assert forall|p: int, k: int|
                0 <= p < s2.len() && 0 <= k < d2.scopes[p].signals.len() implies #[trigger] d2.scopes[p].signals[k]
                < d2.signals.len() by {
                if p < idx {
                    assert(s2[p].signals == s[p].signals);
                }
            }
        },
        DeclView::Var(kind, size, code, reference) => {
            if !is_declared(d, code) {
                let (d2, a2) = decl_step(d, a, c)->Ok_0;
                let s2 = d2.scopes;
                assert forall|x: int| 0 <= x < s.len() implies #[trigger] s2[x].parent
                    == s[x].parent && s2[x].scopes == s[x].scopes by {}
                assert forall|i: int, j: int|
                    0 <= i < j < d2.signals.len() implies #[trigger] d2.signals[i].identifier
                    != #[trigger] d2.signals[j].identifier by {
                    if j == d.signals.len() {
                        assert(d.signals[i].identifier != code);
                    }
                }
                assert forall|p: int, k: int|
                    0 <= p < s2.len() && 0 <= k < s2[p].signals.len() implies #[trigger] s2[p].signals[k]
                    < d2.signals.len() by {
                    if p == a && k == s[a].signals.len() {
                    } else {
                        assert(s2[p].signals[k] == s[p].signals[k]);
                    }
                }
            }
        },
        DeclView::Upscope => {
            if let Some(p) = s[a].parent {
                assert(a > 0);
            }
        },
        _ => {},
    }
}

proof fn lemma_decls_err(ds: Seq<DeclView>, i: int, j: int)
    requires
        0 <= i <= j <= ds.len(),
        decls_fold(ds.take(i)) is Err,
    ensures
        decls_fold(ds.take(j)) == decls_fold(ds.take(i)),
    decreases j - i,
{
    if j > i {
        lemma_decls_err(ds, i, j - 1);
        assert(ds.take(j).drop_last() =~= ds.take(j - 1));
    }
}

proof fn lemma_changes_err(d: DumpView, t: usize, cs: Seq<ChangeView>, i: int, j: int)
    requires
        0 <= i <= j <= cs.len(),
        changes_fold(d, t, cs.take(i)) is Err,
    ensures
        changes_fold(d, t, cs.take(j)) == changes_fold(d, t, cs.take(i)),
    decreases j - i,
{
    if j > i {
        lemma_changes_err(d, t, cs, i, j - 1);
        assert(cs.take(j).drop_last() =~= cs.take(j - 1));
    }
}

proof fn lemma_sims_err(d: DumpView, ss: Seq<SimView>, i: int, j: int)
    requires
        0 <= i <= j <= ss.len(),
        sims_fold(d, ss.take(i)) is Err,
    ensures
        sims_fold(d, ss.take(j)) == sims_fold(d, ss.take(i)),
    decreases j - i,
{
    if j > i {
        lemma_sims_err(d, ss, i, j - 1);
        assert(ss.take(j).drop_last() =~= ss.take(j - 1));
    }
}

impl ValueChangeDump {
    /// A dump with nothing but an unnamed root scope.
    pub fn empty() -> (r: Self)
        ensures
            r@ == empty_dump(),
    {
        let root = ValueChangeDumpScope {
            name: String::new(),
            kind: String::new(),
            scopes: Vec::new(),
            parent: None,
            signals: Vec::new(),
        };
        let mut scopes: Vec<ValueChangeDumpScope> = Vec::new();
        scopes.push(root);
        let r = ValueChangeDump {
            date: String::new(),
            version: String::new(),
            timescale: String::new(),
            scopes,
            signals: Vec::new(),
            wave_map: Vec::new(),
        };
        proof {
            assert(r@.scopes =~= empty_dump().scopes);
            assert(r@.signals =~= empty_dump().signals);
            assert(r@.waves =~= empty_dump().waves);
        }
        r
    }

    /// The registry index of the signal declared with `code`.
    pub fn find_signal(&self, code: &String) -> (r: Option<usize>)
        ensures
            match r {
                Some(k) => k < self.signals.len() && self@.signals[k as int].identifier == code@,
                None => !is_declared(self@, code@),
            },
    {
        let mut k: usize = 0;
        while k < self.signals.len()
            invariant
                k <= self.signals.len(),
                forall|j: int| 0 <= j < k ==> #[trigger] self@.signals[j].identifier != code@,
            decreases self.signals.len() - k,
        {
            if self.signals[k].identifier == *code {
                return Some(k);
            }
            k = k + 1;
        }
        None
    }

    /// The record of `svc` at time `time`.
    pub fn create_value_change(time: usize, svc: &SimulationValueChange) -> (r: ValueChange)
        ensures
            r@ == (time, svc@.value()),
    {
        ValueChange { time, value: svc.value() }
    }

    /// Records `c` at time `t` in the waveform of its signal.
    fn record(&mut self, t: usize, c: &SimulationValueChange) -> (r: Result<(), ModelError>)
        requires
            dump_wf(old(self)@),
        ensures
            match change_step(old(self)@, t, c@) {
                Ok(d2) => r is Ok && final(self)@ == d2,
                Err(e) => r == Err::<(), ModelError>(e),
            },
            dump_wf(final(self)@),
    {
        let code = c.identifier_code();
        match self.find_signal(&code) {
            None => Err(ModelError::UnknownIdentifier),
            Some(k) => {
                let ghost d = self@;
                proof {
                    assert(is_declared(d, code@));
                    let j = signal_index(d, code@);
                    if j != k as int {
                        if j < k {
                            assert(d.signals[j].identifier != d.signals[k as int].identifier);
                        } else {
                            assert(d.signals[k as int].identifier != d.signals[j].identifier);
                        }
                    }
                }
                let vc = ValueChangeDump::create_value_change(t, c);
                let ghost vv = vc@;
                self.wave_map[k].value_changes.push(vc);
                proof {
                    assert(self.wave_map@[k as int]@ =~= d.waves[k as int].push(vv));
                    assert(self@.waves =~= d.waves.update(k as int, d.waves[k as int].push(vv)));
                    assert(self@.scopes =~= d.scopes);
                    assert(self@.signals =~= d.signals);
                }
                Ok(())
            },
        }
    }

    /// Folds a command sequence into a dump: declarations first, from an
    /// unnamed root scope, then value changes, the current time starting at 0.
    #[allow(non_snake_case)]
    pub fn fromDefinition(definition: ValueChangeDumpDefinition) -> (r: Result<Self, ModelError>)
        ensures
            model_result_view(r) == build_spec(definition@),
            r matches Ok(d) ==> dump_wf(d@),
    {
        let mut dump = ValueChangeDump::empty();
        let mut active: usize = 0;
        let ghost ds = definition@.declarations;
        let n = definition.declaration_commands.len();
        let mut i: usize = 0;
        proof {
            assert(ds.take(0) =~= seq![]);
        }
        while i < n
            invariant
                n == definition.declaration_commands.len(),
                ds == definition@.declarations,
                ds.len() == n,
                i <= n,
                decls_fold(ds.take(i as int)) == Ok::<(DumpView, int), ModelError>(
                    (dump@, active as int),
                ),
                state_wf(dump@, active as int),
            decreases n - i,
        {
            let ghost d = dump@;
            let ghost a = active as int;
            let cmd = &definition.declaration_commands[i];
            proof {
                assert(d.scopes.len() == dump.scopes.len());
                assert(d.signals.len() == dump.signals.len());
                assert(ds.take(i + 1).drop_last() =~= ds.take(i as int));
                assert(ds.take(i + 1).last() == cmd@);
            }
            match cmd {
                DeclarationCommand::Comment(_) => {},
                DeclarationCommand::EndDefinitions => {},
                DeclarationCommand::Date(v) => {
                    dump.date = v.value.clone();
                },
                DeclarationCommand::Version(v) => {
                    dump.version = v.value.clone();
                },
                DeclarationCommand::Timescale(ts) => {
                    let mut t = String::new();
                    push_decimal(&mut t, ts.time_number);
                    push_str_chars(&mut t, ts.time_unit.as_str());
                    proof {
                        assert(t@ =~= decimal(ts.time_number as nat) + ts.time_unit@);
                    }
                    dump.timescale = t;
                },
                DeclarationCommand::Scope(sc) => {
                    let idx = dump.scopes.len();
                    dump.scopes[active].scopes.push(idx);
                    let child = ValueChangeDumpScope {
                        name: sc.scope_identifier.clone(),
                        kind: sc.scope_type.clone(),
                        scopes: Vec::new(),
                        parent: Some(active),
                        signals: Vec::new(),
                    };
                    dump.scopes.push(child);
                    active = idx;
                    proof {
                        let top = d.scopes[a];
                        assert(dump.scopes@[a]@ == ScopeView {
                            scopes: top.scopes.push(idx as usize),
                            ..top
                        });
                        assert(dump.scopes@[idx as int]@.scopes =~= seq![]);
                        assert(dump.scopes@[idx as int]@.signals =~= seq![]);
                        assert(dump@.scopes =~= decl_step(d, a, cmd@)->Ok_0.0.scopes);
                        assert(dump@.signals =~= d.signals);
                        assert(dump@.waves =~= d.waves);
                    }
                },
                DeclarationCommand::Upscope => {
                    match dump.scopes[active].parent {
                        Some(p) => {
                            active = p;
                        },
                        None => {
                            proof {
                                lemma_decls_err(ds, i + 1, n as int);
                                assert(ds.take(n as int) =~= ds);
                            }
                            return Err(ModelError::UpscopeAtRoot);
                        },
                    }
                },
                DeclarationCommand::Var(v) => {
                    if dump.find_signal(&v.identifier_code).is_some() {
                        proof {
                            lemma_decls_err(ds, i + 1, n as int);
                            assert(ds.take(n as int) =~= ds);
                        }
                        return Err(ModelError::DuplicateIdentifier);
                    }
                    let idx = dump.signals.len();
                    let sig = ValueChangeDumpSignal {
                        kind: v.var_type.clone(),
                        identifier: v.identifier_code.clone(),
                        reference: v.reference.clone(),
                        size: v.size,
                    };
                    dump.signals.push(sig);
                    dump.wave_map.push(ValueChangeDumpWave { value_changes: Vec::new() });
                    dump.scopes[active].signals.push(idx);
                    proof {
                        let top = d.scopes[a];
                        assert(dump.scopes@[a]@ == ScopeView {
                            signals: top.signals.push(idx as usize),
                            ..top
                        });
                        assert(dump.wave_map@[idx as int]@ =~= seq![]);
                        assert(dump@.scopes =~= decl_step(d, a, cmd@)->Ok_0.0.scopes);
                        assert(dump@.signals =~= decl_step(d, a, cmd@)->Ok_0.0.signals);
                        assert(dump@.waves =~= decl_step(d, a, cmd@)->Ok_0.0.waves);
                    }
                },
            }
            proof {
                lemma_decl_step_wf(d, a, cmd@);
            }
            i = i + 1;
        }
        proof {
            assert(ds.take(n as int) =~= ds);
        }
        let ghost d0 = dump@;
        let ghost ss = definition@.simulation;
        let m = definition.simulation_commands.len();
        let mut time: usize = 0;
        let mut i: usize = 0;
        proof {
            assert(ss.take(0) =~= seq![]);
        }
        while i < m
            invariant
                m == definition.simulation_commands.len(),
                ss == definition@.simulation,
                ss.len() == m,
                i <= m,
                decls_fold(definition@.declarations) == Ok::<(DumpView, int), ModelError>(
                    (d0, active as int),
                ),
                sims_fold(d0, ss.take(i as int)) == Ok::<(DumpView, usize), ModelError>(
                    (dump@, time),
                ),
                dump_wf(dump@),
            decreases m - i,
        {
            let cmd = &definition.simulation_commands[i];
            proof {
                assert(ss.take(i + 1).drop_last() =~= ss.take(i as int));
                assert(ss.take(i + 1).last() == cmd@);
            }
            match cmd {
                SimulationCommand::KeywordCommand(k) => {
                    let ghost dk = dump@;
                    let ghost cs = crate::ast::changes_view(k.value_changes@);
                    let mut j: usize = 0;
                    proof {
                        assert(cs.take(0) =~= seq![]);
                    }
                    while j < k.value_changes.len()
                        invariant
                            cs == crate::ast::changes_view(k.value_changes@),
                            j <= k.value_changes.len(),
                            ss == definition@.simulation,
                            ss.len() == m,
                            i < m,
                            ss[i as int] == SimView::Keyword(k.ty, cs),
                            sims_fold(d0, ss.take(i as int)) == Ok::<(DumpView, usize), ModelError>(
                                (dk, time),
                            ),
                            ss.take(i + 1).drop_last() == ss.take(i as int),
                            ss.take(i + 1).last() == ss[i as int],
                            decls_fold(definition@.declarations) == Ok::<(DumpView, int), ModelError>(
                                (d0, active as int),
                            ),
                            changes_fold(dk, time, cs.take(j as int)) == Ok::<DumpView, ModelError>(
                                dump@,
                            ),
                            dump_wf(dump@),
                        decreases k.value_changes.len() - j,
                    {
                        proof {
                            assert(cs.take(j + 1).drop_last() =~= cs.take(j as int));
                            assert(cs.take(j + 1).last() == k.value_changes@[j as int]@);
                        }
                        let res = dump.record(time, &k.value_changes[j]);
                        if res.is_err() {
                            proof {
                                lemma_changes_err(dk, time, cs, j + 1, cs.len() as int);
                                assert(cs.take(cs.len() as int) =~= cs);
                                lemma_sims_err(d0, ss, i + 1, m as int);
                                assert(ss.take(m as int) =~= ss);
                            }
                            return Err(ModelError::UnknownIdentifier);
                        }
                        j = j + 1;
                    }
                    proof {
                        assert(cs.take(cs.len() as int) =~= cs);
                    }
                },
                SimulationCommand::Comment(_) => {},
                SimulationCommand::SimulationTime(t) => {
                    time = t.value;
                },
                SimulationCommand::ValueChange(c) => {
                    let res = dump.record(time, c);
                    if res.is_err() {
                        proof {
                            lemma_sims_err(d0, ss, i + 1, m as int);
                            assert(ss.take(m as int) =~= ss);
                        }
                        return Err(ModelError::UnknownIdentifier);
                    }
                },
            }
            i = i + 1;
        }
        proof {
            assert(ss.take(m as int) =~= ss);
        }
        Ok(dump)
    }
}

proof fn lemma_decls_fold_wf(ds: Seq<DeclView>)
    requires
        ds.len() <= usize::MAX,
    ensures
        decls_fold(ds) matches Ok((d, a)) ==> state_wf(d, a) && d.scopes.len() <= ds.len() + 1
            && d.signals.len() <= ds.len(),
    decreases ds.len(),
{
    if ds.len() > 0 {
        lemma_decls_fold_wf(ds.drop_last());
        if let Ok((d, a)) = decls_fold(ds.drop_last()) {
            lemma_decl_step_wf(d, a, ds.last());
        }
    } else {
        assert(scopes_wf(empty_dump().scopes));
    }
}

/// In a well-formed dump the root scope has no parent and is nobody's child,
/// and every other scope is the child of exactly one scope, which its parent
/// index names, and is listed there once.
pub proof fn lemma_one_parent(d: DumpView)
    requires
        dump_wf(d),
    ensures
        d.scopes[0].parent is None,
        forall|p: int| 0 <= p < d.scopes.len() ==> !(#[trigger] d.scopes[p].scopes.contains(0usize)),
        forall|c: int|
            0 < c < d.scopes.len() ==> (#[trigger] d.scopes[c].parent matches Some(p) && p
                < d.scopes.len() && d.scopes[p as int].scopes.contains(c as usize)),
        forall|c: int, q: int|
            0 < c < d.scopes.len() && 0 <= q < d.scopes.len() && #[trigger] d.scopes[q].scopes.contains(
                c as usize,
            ) ==> d.scopes[c].parent == Some(q as usize),
        forall|p: int, k1: int, k2: int|
            0 <= p < d.scopes.len() && 0 <= k1 < k2 < d.scopes[p].scopes.len() ==> #[trigger] d.scopes[p].scopes[k1]
                != #[trigger] d.scopes[p].scopes[k2],
{
    let s = d.scopes;
    assert forall|p: int| 0 <= p < s.len() implies !(#[trigger] s[p].scopes.contains(0usize)) by {
        if s[p].scopes.contains(0usize) {
            let k = choose|k: int| 0 <= k < s[p].scopes.len() && s[p].scopes[k] == 0usize;
            assert(0 < s[p].scopes[k]);
        }
    }
    assert forall|c: int, q: int|
        0 < c < s.len() && 0 <= q < s.len() && #[trigger] s[q].scopes.contains(
            c as usize,
        ) implies s[c].parent == Some(q as usize) by {
        let k = choose|k: int| 0 <= k < s[q].scopes.len() && s[q].scopes[k] == c as usize;
        assert(s[s[q].scopes[k] as int].parent == Some(q as usize));
    }
}

/// Folding `$upscope` after declarations that leave the root scope active
/// fails with `UpscopeAtRoot`.
pub proof fn lemma_upscope_at_root(ds: Seq<DeclView>)
    requires
        ds.len() < usize::MAX,
        decls_fold(ds) matches Ok((_, a)) && a == 0,
    ensures
        decls_fold(ds.push(DeclView::Upscope)) == Err::<(DumpView, int), ModelError>(
            ModelError::UpscopeAtRoot,
        ),
{
    lemma_decls_fold_wf(ds);
    assert(ds.push(DeclView::Upscope).drop_last() =~= ds);
}

/// Why dump text could not be turned into a dump.
#[derive(Debug, Clone, Copy, PartialEq, Eq, Structural)]
pub enum DumpError {
    Syntax(SyntaxError),
    Model(ModelError),
}

/// What `ValueChangeDump::parse` returns for the text `s`.
pub open spec fn dump_spec(s: Seq<char>) -> Result<DumpView, DumpError> {
    match parse_spec(s) {
        Ok(def) => match build_spec(def) {
            Ok(d) => Ok(d),
            Err(e) => Err(DumpError::Model(e)),
        },
        Err(e) => Err(DumpError::Syntax(e)),
    }
}

impl ValueChangeDump {
    /// Parses dump text and folds its commands into a dump.
    pub fn parse(input: &str) -> (r: Result<ValueChangeDump, DumpError>)
        requires
            input@.len() < usize::MAX,
        ensures
            match r {
                Ok(d) => dump_spec(input@) == Ok::<DumpView, DumpError>(d@) && dump_wf(d@),
                Err(e) => dump_spec(input@) == Err::<DumpView, DumpError>(e),
            },
    {
        let parsed = crate::grammar::parse(input);
        proof {
            assert(parse_result_view(parsed) == parse_spec(input@));
        }
        match parsed {
            Ok(def) => match ValueChangeDump::fromDefinition(def) {
                Ok(d) => Ok(d),
                Err(e) => Err(DumpError::Model(e)),
            },
            Err(e) => Err(DumpError::Syntax(e)),
        }
    }
}

} // verus!
