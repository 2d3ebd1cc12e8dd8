//! The typed fact store: one relation per fact kind, each a monotonically
//! growing vector, deduplicated on insertion. Binaries are interned to
//! small ids; call contexts are interned to stack ids whose records form a
//! tree rooted at the distinguished empty context.

use vstd::prelude::*;
use crate::chop::{Chop, chop_wf};
use crate::sema::{Sema, Word};
use crate::var::HVar;

verus! {

/// A loaded segment of a binary: its raw bytes and address span.
#[derive(Debug)]
pub struct Segment {
    pub bin: u64,
    pub id: u64,
    pub data: Vec<u8>,
    pub start: u64,
    pub end: u64,
    pub readable: bool,
    pub writable: bool,
    pub executable: bool,
}

/// A symbol table entry: a named code span of a binary.
#[derive(Debug)]
pub struct Entry {
    pub bin: u64,
    pub sym: String,
    pub start: u64,
    pub end: u64,
}

/// An import stub: calling `addr` in `bin` reaches the external routine
/// `name`.
#[derive(Debug)]
pub struct LinkPad {
    pub bin: u64,
    pub name: String,
    pub addr: u64,
}

/// One lifted instruction: its semantics, fallthrough, disassembly text
/// and call/return classification. Produced once per (binary, address).
#[derive(Debug)]
pub struct Instr {
    pub bin: u64,
    pub addr: u64,
    pub sema: Sema,
    pub fall: u64,
    pub disasm: String,
    pub is_call: bool,
    pub is_ret: bool,
}

/// A resolved control transfer.
#[derive(Clone, Copy, Debug, PartialEq, Eq, Structural)]
pub struct SuccFact {
    pub bin: u64,
    pub src: u64,
    pub sink: u64,
    pub is_call: bool,
}

/// An address known reachable.
#[derive(Clone, Copy, Debug, PartialEq, Eq, Structural)]
pub struct Live {
    pub bin: u64,
    pub addr: u64,
}

/// A step-over edge: the next instruction in the caller, skipping calls.
#[derive(Clone, Copy, Debug, PartialEq, Eq, Structural)]
pub struct SuccOver {
    pub bin: u64,
    pub addr: u64,
    pub next: u64,
}

/// A resolved call edge between binaries.
#[derive(Clone, Copy, Debug, PartialEq, Eq, Structural)]
pub struct CallSite {
    pub src_bin: u64,
    pub src_addr: u64,
    pub dst_bin: u64,
    pub dst_addr: u64,
}

/// An address reachable from a function entry without a return.
#[derive(Clone, Copy, Debug, PartialEq, Eq, Structural)]
pub struct FuncFact {
    pub bin: u64,
    pub entry: u64,
    pub addr: u64,
}

/// A classified call site: used for the allocator, deallocator and
/// skip-routine relations.
#[derive(Clone, Copy, Debug, PartialEq, Eq, Structural)]
pub struct CallAddr {
    pub bin: u64,
    pub addr: u64,
}

/// An instruction known to pass the given location to an external routine
/// that reads it.
#[derive(Clone, Copy, Debug, PartialEq, Eq, Structural)]
pub struct FuncUse {
    pub bin: u64,
    pub addr: u64,
    pub var: HVar,
}

/// One interned call-context frame: the context `prev` extended by a
/// return site in `bin` at `ret`. The record's index is its canonical id;
/// index zero is the distinguished empty context.
#[derive(Clone, Copy, Debug, PartialEq, Eq, Structural)]
pub struct StackFact {
    pub prev: u64,
    pub bin: u64,
    pub ret: u64,
    pub len: u64,
}

/// A path-alias state: from the allocation at (`src_bin`, `src_addr`) with
/// alias-set number `alias_set`, under call context `stack` and chop
/// `chop`, the location `var` at (`cur_bin`, `cur_addr`) may hold the
/// allocated pointer; `freed` marks whether a free of a may-alias has been
/// seen on the way.
#[derive(Clone, Copy, Debug, PartialEq, Eq, Structural)]
pub struct PathAlias {
    pub src_bin: u64,
    pub src_addr: u64,
    pub alias_set: u64,
    pub stack: u64,
    pub chop: Chop,
    pub cur_bin: u64,
    pub cur_addr: u64,
    pub var: HVar,
    pub freed: bool,
}

/// An accepted use-after-free flow: a freed path-alias state at an
/// instruction that genuinely consumes the tracked location.
#[derive(Clone, Copy, Debug, PartialEq, Eq, Structural)]
pub struct UafFlow {
    pub src_bin: u64,
    pub src_addr: u64,
    pub alias_set: u64,
    pub stack: u64,
    pub sink_bin: u64,
    pub sink_addr: u64,
    pub var: HVar,
}

/// A path-alias state of the second, trace pass: the chop is replaced by
/// a step counter bounded by the configured maximum.
#[derive(Clone, Copy, Debug, PartialEq, Eq, Structural)]
pub struct PathAliasTrace {
    pub src_bin: u64,
    pub src_addr: u64,
    pub alias_set: u64,
    pub stack: u64,
    pub cur_bin: u64,
    pub cur_addr: u64,
    pub var: HVar,
    pub freed: bool,
    pub len: u64,
}

/// A reportable use-after-free finding with its bounded witness length.
#[derive(Clone, Copy, Debug, PartialEq, Eq, Structural)]
pub struct Uaf {
    pub src_bin: u64,
    pub src_addr: u64,
    pub alias_set: u64,
    pub sink_bin: u64,
    pub sink_addr: u64,
    pub var: HVar,
    pub stack: u64,
    pub len: u64,
}

/// A location believed to hold a known constant at an address.
#[derive(Clone, Copy, Debug, PartialEq, Eq, Structural)]
pub struct PossConst {
    pub bin: u64,
    pub addr: u64,
    pub var: HVar,
    pub val: Word,
}

/// A location believed to point at a known read-only string at an
/// address.
#[derive(Debug)]
pub struct PossString {
    pub bin: u64,
    pub addr: u64,
    pub var: HVar,
    pub s: Vec<u8>,
}

/// The name of an external routine treated as printf-like.
#[derive(Debug)]
pub struct PrintfLike {
    pub name: String,
}

/// The fact store: input relations filled at the lifter boundary and
/// derived relations filled by the fixpoint rules, plus the run's
/// configuration.
#[derive(Debug)]
pub struct Db {
    pub binaries: Vec<String>,
    pub segments: Vec<Segment>,
    pub entries: Vec<Entry>,
    pub link_pads: Vec<LinkPad>,
    pub instrs: Vec<Instr>,
    pub succs: Vec<SuccFact>,
    pub lives: Vec<Live>,
    pub succ_overs: Vec<SuccOver>,
    pub call_sites: Vec<CallSite>,
    pub funcs: Vec<FuncFact>,
    pub malloc_calls: Vec<CallAddr>,
    pub free_calls: Vec<CallAddr>,
    pub skip_funcs: Vec<CallAddr>,
    pub func_uses: Vec<FuncUse>,
    pub stacks: Vec<StackFact>,
    pub path_aliases: Vec<PathAlias>,
    pub uaf_flows: Vec<UafFlow>,
    pub traces: Vec<PathAliasTrace>,
    pub uafs: Vec<Uaf>,
    pub poss_consts: Vec<PossConst>,
    pub poss_strings: Vec<PossString>,
    pub printf_likes: Vec<PrintfLike>,
    pub max_trace_len: u64,
    pub kprop: bool,
}

// ---------------------------------------------------------------------------
// Well-formedness
// ---------------------------------------------------------------------------

/// Instruction facts are functional: one record per (binary, address).
pub open spec fn instrs_unique(s: Seq<Instr>) -> bool {
    forall|i: int, j: int|
        0 <= i < s.len() && 0 <= j < s.len() && (#[trigger] s[i]).bin == (#[trigger] s[j]).bin
            && s[i].addr == s[j].addr ==> i == j
}

/// Instruction facts are functional: one record per (binary, address).
pub open spec fn wf_instrs(db: Db) -> bool {
    instrs_unique(db.instrs@)
}

/// The context table is a tree rooted at the empty context: record zero
/// is the sentinel, every later record extends an earlier one, depths
/// grow by one and never pass five, and no frame is interned twice.
pub open spec fn stacks_wf(s: Seq<StackFact>) -> bool {
    &&& s.len() >= 1
    &&& s[0] == (StackFact { prev: 0, bin: 0, ret: 0, len: 0 })
    &&& forall|i: int| 1 <= i < s.len() ==> (#[trigger] s[i]).prev < i
    &&& forall|i: int|
        1 <= i < s.len() ==> (#[trigger] s[i]).len == s[s[i].prev as int].len + 1
    &&& forall|i: int| 1 <= i < s.len() ==> (#[trigger] s[i]).len <= 5
    &&& forall|i: int, j: int|
        0 <= i < s.len() && 0 <= j < s.len() && (#[trigger] s[i]).prev == (#[trigger] s[j]).prev
            && s[i].bin == s[j].bin && s[i].ret == s[j].ret ==> i == j
}

/// See `stacks_wf`.
pub open spec fn wf_stacks(db: Db) -> bool {
    stacks_wf(db.stacks@)
}

/// Two path-alias states with the same key: everything but the freed
/// flag.
pub open spec fn pa_key_eq(a: PathAlias, b: PathAlias) -> bool {
    &&& a.src_bin == b.src_bin
    &&& a.src_addr == b.src_addr
    &&& a.alias_set == b.alias_set
    &&& a.stack == b.stack
    &&& a.chop == b.chop
    &&& a.cur_bin == b.cur_bin
    &&& a.cur_addr == b.cur_addr
    &&& a.var == b.var
}

/// The path-alias relation holds one record per key, carrying the key's
/// current freed flag.
pub open spec fn pa_unique(s: Seq<PathAlias>) -> bool {
    forall|i: int, j: int|
        0 <= i < s.len() && 0 <= j < s.len() && pa_key_eq(#[trigger] s[i], #[trigger] s[j]) ==> i
            == j
}

/// Path-alias states refer only to interned contexts and carry
/// well-formed chops.
pub open spec fn wf_pas(db: Db) -> bool {
    &&& pa_unique(db.path_aliases@)
    &&& forall|i: int|
        0 <= i < db.path_aliases@.len() ==> (#[trigger] db.path_aliases@[i]).stack
            < db.stacks@.len()
    &&& forall|i: int|
        0 <= i < db.path_aliases@.len() ==> chop_wf((#[trigger] db.path_aliases@[i]).chop)
}

/// Trace states refer only to interned contexts and never outrun the
/// configured bound.
pub open spec fn wf_traces(db: Db) -> bool {
    &&& forall|i: int|
        0 <= i < db.traces@.len() ==> (#[trigger] db.traces@[i]).stack < db.stacks@.len()
    &&& forall|i: int|
        0 <= i < db.traces@.len() ==> (#[trigger] db.traces@[i]).len <= db.max_trace_len
}

/// The store invariant.
pub open spec fn db_wf(db: Db) -> bool {
    &&& wf_instrs(db)
    &&& wf_stacks(db)
    &&& wf_pas(db)
    &&& wf_traces(db)
}

// ---------------------------------------------------------------------------
// Presence and growth
// ---------------------------------------------------------------------------

/// A path-alias state is present at least as strongly as `f`: its key is
/// stored, and if `f` claims freed the stored flag claims it too.
pub open spec fn has_pa(s: Seq<PathAlias>, f: PathAlias) -> bool {
    exists|i: int|
        0 <= i < s.len() && pa_key_eq(#[trigger] s[i], f) && (f.freed ==> s[i].freed)
}

/// The configuration and the input relations: never changed by rules.
pub open spec fn db_inputs_eq(a: Db, b: Db) -> bool {
    &&& a.binaries@ == b.binaries@
    &&& a.segments@ == b.segments@
    &&& a.entries@ == b.entries@
    &&& a.link_pads@ == b.link_pads@
    &&& a.instrs@ == b.instrs@
    &&& a.max_trace_len == b.max_trace_len
    &&& a.kprop == b.kprop
}

/// Every relation of `b` holds at least what the same relation of `a`
/// holds; contexts keep their ids; freed flags never fall.
pub open spec fn db_grows(a: Db, b: Db) -> bool {
    &&& db_inputs_eq(a, b)
    &&& forall|f: SuccFact| a.succs@.contains(f) ==> b.succs@.contains(f)
    &&& forall|f: Live| a.lives@.contains(f) ==> b.lives@.contains(f)
    &&& forall|f: SuccOver| a.succ_overs@.contains(f) ==> b.succ_overs@.contains(f)
    &&& forall|f: CallSite| a.call_sites@.contains(f) ==> b.call_sites@.contains(f)
    &&& forall|f: FuncFact| a.funcs@.contains(f) ==> b.funcs@.contains(f)
    &&& forall|f: CallAddr| a.malloc_calls@.contains(f) ==> b.malloc_calls@.contains(f)
    &&& forall|f: CallAddr| a.free_calls@.contains(f) ==> b.free_calls@.contains(f)
    &&& forall|f: CallAddr| a.skip_funcs@.contains(f) ==> b.skip_funcs@.contains(f)
    &&& forall|f: FuncUse| a.func_uses@.contains(f) ==> b.func_uses@.contains(f)
    &&& a.stacks@.is_prefix_of(b.stacks@)
    &&& forall|f: PathAlias| has_pa(a.path_aliases@, f) ==> has_pa(b.path_aliases@, f)
    &&& forall|f: UafFlow| a.uaf_flows@.contains(f) ==> b.uaf_flows@.contains(f)
    &&& forall|f: PathAliasTrace| a.traces@.contains(f) ==> b.traces@.contains(f)
    &&& forall|f: Uaf| a.uafs@.contains(f) ==> b.uafs@.contains(f)
    &&& forall|f: PossConst| a.poss_consts@.contains(f) ==> b.poss_consts@.contains(f)
    &&& forall|i: int|
        0 <= i < a.poss_strings@.len() ==> has_poss_string(
            b.poss_strings@,
            (#[trigger] a.poss_strings@[i]).bin,
            a.poss_strings@[i].addr,
            a.poss_strings@[i].var,
            a.poss_strings@[i].s@,
        )
    &&& forall|i: int|
        0 <= i < a.printf_likes@.len() ==> has_printf_like(
            b.printf_likes@,
            (#[trigger] a.printf_likes@[i]).name@,
        )
}

/// A possible-string fact with the given plain fields is present.
pub open spec fn has_poss_string(s: Seq<PossString>, bin: u64, addr: u64, var: HVar, bytes: Seq<u8>) -> bool {
    exists|i: int|
        0 <= i < s.len() && (#[trigger] s[i]).bin == bin && s[i].addr == addr && s[i].var == var
            && s[i].s@ == bytes
}

/// A printf-like routine of the given name is registered.
pub open spec fn has_printf_like(s: Seq<PrintfLike>, name: Seq<char>) -> bool {
    exists|i: int| 0 <= i < s.len() && (#[trigger] s[i]).name@ == name
}

/// The derived relations of the two stores hold the same facts, record
/// for record, and the inputs agree: nothing was derived between the two.
pub open spec fn db_eq(a: Db, b: Db) -> bool {
    &&& db_inputs_eq(a, b)
    &&& a.succs@ == b.succs@
    &&& a.lives@ == b.lives@
    &&& a.succ_overs@ == b.succ_overs@
    &&& a.call_sites@ == b.call_sites@
    &&& a.funcs@ == b.funcs@
    &&& a.malloc_calls@ == b.malloc_calls@
    &&& a.free_calls@ == b.free_calls@
    &&& a.skip_funcs@ == b.skip_funcs@
    &&& a.func_uses@ == b.func_uses@
    &&& a.stacks@ == b.stacks@
    &&& a.path_aliases@ == b.path_aliases@
    &&& a.uaf_flows@ == b.uaf_flows@
    &&& a.traces@ == b.traces@
    &&& a.uafs@ == b.uafs@
    &&& a.poss_consts@ == b.poss_consts@
    &&& a.poss_strings@ == b.poss_strings@
    &&& a.printf_likes@ == b.printf_likes@
}

// ---------------------------------------------------------------------------
// Setup and the lifter boundary
// ---------------------------------------------------------------------------

/// An empty store: no binaries, no facts, only the sentinel empty
/// context, configured with a trace bound and whether the constant
/// heuristics run.
pub fn setup(max_trace_len: u64, kprop: bool) -> (db: Db)
    ensures
        db_wf(db),
        db.binaries@.len() == 0,
        db.instrs@.len() == 0,
        db.entries@.len() == 0,
        db.link_pads@.len() == 0,
        db.segments@.len() == 0,
        db.succs@.len() == 0,
        db.lives@.len() == 0,
        db.succ_overs@.len() == 0,
        db.call_sites@.len() == 0,
        db.funcs@.len() == 0,
        db.malloc_calls@.len() == 0,
        db.free_calls@.len() == 0,
        db.skip_funcs@.len() == 0,
        db.func_uses@.len() == 0,
        db.stacks@ =~= seq![StackFact { prev: 0, bin: 0, ret: 0, len: 0 }],
        db.path_aliases@.len() == 0,
        db.uaf_flows@.len() == 0,
        db.traces@.len() == 0,
        db.uafs@.len() == 0,
        db.poss_consts@.len() == 0,
        db.poss_strings@.len() == 0,
        db.printf_likes@.len() == 0,
        db.max_trace_len == max_trace_len,
        db.kprop == kprop,
{
    let mut stacks: Vec<StackFact> = Vec::new();
    stacks.push(StackFact { prev: 0, bin: 0, ret: 0, len: 0 });
    Db {
        binaries: Vec::new(),
        segments: Vec::new(),
        entries: Vec::new(),
        link_pads: Vec::new(),
        instrs: Vec::new(),
        succs: Vec::new(),
        lives: Vec::new(),
        succ_overs: Vec::new(),
        call_sites: Vec::new(),
        funcs: Vec::new(),
        malloc_calls: Vec::new(),
        free_calls: Vec::new(),
        skip_funcs: Vec::new(),
        func_uses: Vec::new(),
        stacks,
        path_aliases: Vec::new(),
        uaf_flows: Vec::new(),
        traces: Vec::new(),
        uafs: Vec::new(),
        poss_consts: Vec::new(),
        poss_strings: Vec::new(),
        printf_likes: Vec::new(),
        max_trace_len,
        kprop,
    }
}

impl Db {
    /// Registers a binary under the next free id and returns it.
    pub fn intern_binary(&mut self, name: String) -> (id: u64)
        requires
            db_wf(*old(self)),
            old(self).binaries@.len() < u64::MAX,
        ensures
            db_wf(*final(self)),
            final(self).binaries@ == old(self).binaries@.push(name),
            id == old(self).binaries@.len(),
            db_same_but_binaries(*old(self), *final(self)),
    {
        let id = self.binaries.len() as u64;
        self.binaries.push(name);
        id
    }

    /// Records a loaded segment.
    pub fn add_segment(&mut self, seg: Segment)
        requires
            db_wf(*old(self)),
        ensures
            db_wf(*final(self)),
            final(self).segments@ == old(self).segments@.push(seg),
            db_same_but_segments(*old(self), *final(self)),
    {
        self.segments.push(seg);
    }

    /// Records a symbol table entry.
    pub fn add_entry(&mut self, e: Entry)
        requires
            db_wf(*old(self)),
        ensures
            db_wf(*final(self)),
            final(self).entries@ == old(self).entries@.push(e),
            db_same_but_entries(*old(self), *final(self)),
    {
        self.entries.push(e);
    }

    /// Records an import stub.
    pub fn add_link_pad(&mut self, p: LinkPad)
        requires
            db_wf(*old(self)),
        ensures
            db_wf(*final(self)),
            final(self).link_pads@ == old(self).link_pads@.push(p),
            db_same_but_link_pads(*old(self), *final(self)),
    {
        self.link_pads.push(p);
    }

    /// Records the lifter's output for one address: accepted exactly when
    /// no record for the same (binary, address) is stored yet, so the
    /// lifter is consulted once per address.
    pub fn add_instr(&mut self, ins: Instr) -> (accepted: bool)
        requires
            db_wf(*old(self)),
        ensures
            db_wf(*final(self)),
            accepted == !(exists|j: int|
                0 <= j < old(self).instrs@.len() && (#[trigger] old(self).instrs@[j]).bin
                    == ins.bin && old(self).instrs@[j].addr == ins.addr),
            accepted ==> final(self).instrs@ == old(self).instrs@.push(ins),
            !accepted ==> final(self).instrs@ == old(self).instrs@,
            db_same_but_instrs(*old(self), *final(self)),
    {
        let n = self.instrs.len();
        for i in 0..n
            invariant
                n == self.instrs.len(),
                *self == *old(self),
                db_wf(*self),
                forall|j: int|
                    0 <= j < i ==> !((#[trigger] self.instrs@[j]).bin == ins.bin
                        && self.instrs@[j].addr == ins.addr),
        {
            if self.instrs[i].bin == ins.bin && self.instrs[i].addr == ins.addr {
                proof {
                    assert((#[trigger] self.instrs@[i as int]).bin == ins.bin
                        && self.instrs@[i as int].addr == ins.addr);
                }
                return false;
            }
        }
        self.instrs.push(ins);
        true
    }

    /// The addresses the engine wants lifted: live but not yet covered by
    /// an instruction record. The embedder lifts them and hands the
    /// results back through `add_instr`.
    pub fn pending_lifts(&self) -> (out: Vec<Live>)
        ensures
            forall|k: int|
                0 <= k < out@.len() ==> self.lives@.contains(#[trigger] out@[k]) && !(exists|j: int|
                    0 <= j < self.instrs@.len() && (#[trigger] self.instrs@[j]).bin == out@[k].bin
                        && self.instrs@[j].addr == out@[k].addr),
            forall|i: int|
                0 <= i < self.lives@.len() && !(exists|j: int|
                    0 <= j < self.instrs@.len() && (#[trigger] self.instrs@[j]).bin
                        == (#[trigger] self.lives@[i]).bin && self.instrs@[j].addr
                        == self.lives@[i].addr) ==> out@.contains(self.lives@[i]),
    {
        let mut out: Vec<Live> = Vec::new();
        let n = self.lives.len();
        for i in 0..n
            invariant
                n == self.lives.len(),
                forall|k: int|
                    0 <= k < out@.len() ==> self.lives@.contains(#[trigger] out@[k]) && !(exists|
                        j: int,
                    |
                        0 <= j < self.instrs@.len() && (#[trigger] self.instrs@[j]).bin
                            == out@[k].bin && self.instrs@[j].addr == out@[k].addr),
                forall|i2: int|
                    0 <= i2 < i && !(exists|j: int|
                        0 <= j < self.instrs@.len() && (#[trigger] self.instrs@[j]).bin
                            == (#[trigger] self.lives@[i2]).bin && self.instrs@[j].addr
                            == self.lives@[i2].addr) ==> out@.contains(self.lives@[i2]),
        {
            let live = self.lives[i];
            let m = self.instrs.len();
            let mut covered = false;
            for j in 0..m
                invariant
                    m == self.instrs.len(),
                    live == self.lives@[i as int],
                    covered == (exists|j2: int|
                        0 <= j2 < j && (#[trigger] self.instrs@[j2]).bin == live.bin
                            && self.instrs@[j2].addr == live.addr),
            {
                if self.instrs[j].bin == live.bin && self.instrs[j].addr == live.addr {
                    proof {
                        assert((#[trigger] self.instrs@[j as int]).bin == live.bin
                            && self.instrs@[j as int].addr == live.addr);
                    }
                    covered = true;
                }
            }
            if !covered {
                let ghost pre = out@;
                out.push(live);
                proof {
                    assert(out@.last() == live);
                    assert(self.lives@.contains(live)) by {
                        assert(self.lives@[i as int] == live);
                    }
                    assert(forall|k: int| 0 <= k < pre.len() ==> out@[k] == pre[k]);
                }
            }
        }
        out
    }
}

/// The derived relations and the configuration agree: loading input
/// facts never disturbs what the rules have concluded.
pub open spec fn db_derived_eq(a: Db, b: Db) -> bool {
    &&& a.succs@ == b.succs@
    &&& a.lives@ == b.lives@
    &&& a.succ_overs@ == b.succ_overs@
    &&& a.call_sites@ == b.call_sites@
    &&& a.funcs@ == b.funcs@
    &&& a.malloc_calls@ == b.malloc_calls@
    &&& a.free_calls@ == b.free_calls@
    &&& a.skip_funcs@ == b.skip_funcs@
    &&& a.func_uses@ == b.func_uses@
    &&& a.stacks@ == b.stacks@
    &&& a.path_aliases@ == b.path_aliases@
    &&& a.uaf_flows@ == b.uaf_flows@
    &&& a.traces@ == b.traces@
    &&& a.uafs@ == b.uafs@
    &&& a.poss_consts@ == b.poss_consts@
    &&& a.poss_strings@ == b.poss_strings@
    &&& a.printf_likes@ == b.printf_likes@
    &&& a.max_trace_len == b.max_trace_len
    &&& a.kprop == b.kprop
}

/// Everything but the binaries table agrees.
pub open spec fn db_same_but_binaries(a: Db, b: Db) -> bool {
    &&& a.segments@ == b.segments@
    &&& a.entries@ == b.entries@
    &&& a.link_pads@ == b.link_pads@
    &&& a.instrs@ == b.instrs@
    &&& db_derived_eq(a, b)
}

/// Everything but the segments table agrees.
pub open spec fn db_same_but_segments(a: Db, b: Db) -> bool {
    &&& a.binaries@ == b.binaries@
    &&& a.entries@ == b.entries@
    &&& a.link_pads@ == b.link_pads@
    &&& a.instrs@ == b.instrs@
    &&& db_derived_eq(a, b)
}

/// Everything but the symbol table agrees.
pub open spec fn db_same_but_entries(a: Db, b: Db) -> bool {
    &&& a.binaries@ == b.binaries@
    &&& a.segments@ == b.segments@
    &&& a.link_pads@ == b.link_pads@
    &&& a.instrs@ == b.instrs@
    &&& db_derived_eq(a, b)
}

/// Everything but the import-stub table agrees.
pub open spec fn db_same_but_link_pads(a: Db, b: Db) -> bool {
    &&& a.binaries@ == b.binaries@
    &&& a.segments@ == b.segments@
    &&& a.entries@ == b.entries@
    &&& a.instrs@ == b.instrs@
    &&& db_derived_eq(a, b)
}

/// Everything but the instruction table agrees.
pub open spec fn db_same_but_instrs(a: Db, b: Db) -> bool {
    &&& a.binaries@ == b.binaries@
    &&& a.segments@ == b.segments@
    &&& a.entries@ == b.entries@
    &&& a.link_pads@ == b.link_pads@
    &&& db_derived_eq(a, b)
}

} // verus!
