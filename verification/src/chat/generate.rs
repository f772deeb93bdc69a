//! One generation on the page pool, from its resume point to its parked prefix:
//! what has happened goes in, what is to be done next comes out.
//!
//! Pages are parked behind every pass that writes, for parking makes them shared;
//! and never behind a prefill that failed, for then they were not all written. What
//! is parked is the prefill's, so a decode that fails parks it all the same.

use vstd::arithmetic::div_mod::lemma_fundamental_div_mod;
use vstd::prelude::*;
use vstd::string::*;

use crate::chat::apc::{publish, Resume};
use crate::chat::engine::{
    begin, ceil_div, cell, decode_budget, decode_step, fits, law_a_quotient_is_rounded_up, law_shared_pages_are_never_written,
    law_the_pool_holds_the_turn, lemma_pool_size_fits,
    needed_pages, over, pool_ids, pool_pages, pool_size, prefill_chunk, prompt_or_pad, republished,
    retires, start, Begin, ForwardKind, Geometry, Outcome, NO_PAGES,
};
use crate::chat::turn::Flow;

verus! {

// ---------------------------------------------------------------------------
// Events and asks
// ---------------------------------------------------------------------------

/// Where a generation stands: what it waits for.
#[derive(Clone, Copy, Debug, PartialEq, Eq, Structural)]
pub enum Phase {
    /// An entry that fails its own geometry is removed.
    Dropping,
    Reserving,
    Splitting,
    Filling,
    Telling,
    Decoding,
    Parking,
    /// The entry that the turn resumed from is removed.
    Retiring,
    Over,
}

/// What has happened.
pub enum Event {
    /// The entry is removed, or could not be.
    Removed,
    /// The pages are granted, by their ids.
    Reserved(Vec<u32>),
    /// The passes that a prefill is split into.
    Split(Vec<(u32, u32)>),
    /// The pass ran and drew this token.
    Sampled(u32),
    /// What was asked for could not be done.
    Failed(String),
    /// The token is told; whether the turn goes on.
    Told(Flow),
    /// Parking is over; whether the pages are parked.
    Parked(bool),
}

/// What is to be done next.
pub enum Ask {
    /// Remove the entry of that address.
    Remove(String),
    /// Reserve so many pages more.
    Reserve(u32),
    /// Split a prefill of so many tokens into passes.
    Split(u32),
    /// Run a pass over these tokens.
    Fire { tokens: Vec<u32>, geometry: Geometry, folded: bool },
    /// Tell of a token.
    Tell(u32),
    /// Park the first pages under that address.
    Park(u32, String),
    End,
}

/// What an event holds.
pub enum EventView {
    Removed,
    Reserved(Seq<u32>),
    Split(Seq<(u32, u32)>),
    Sampled(u32),
    Failed(Seq<char>),
    Told(Flow),
    Parked(bool),
}

/// What a geometry holds.
#[verifier::ext_equal]
pub struct GeometryView {
    pub positions: Seq<u32>,
    pub slots: Seq<u32>,
    pub offsets: Seq<u32>,
    pub kv_len: int,
    pub pages: int,
    pub writable_from: int,
}

/// What an ask holds.
pub enum AskView {
    Remove(Seq<char>),
    Reserve(int),
    Split(int),
    Fire { tokens: Seq<u32>, geometry: GeometryView, folded: bool },
    Tell(u32),
    Park(int, Seq<char>),
    End,
}

impl View for Event {
    type V = EventView;

    open spec fn view(&self) -> EventView {
        match *self {
            Event::Removed => EventView::Removed,
            Event::Reserved(ids) => EventView::Reserved(ids@),
            Event::Split(spans) => EventView::Split(spans@),
            Event::Sampled(t) => EventView::Sampled(t),
            Event::Failed(e) => EventView::Failed(e@),
            Event::Told(flow) => EventView::Told(flow),
            Event::Parked(kept) => EventView::Parked(kept),
        }
    }
}

/// What a geometry holds.
pub open spec fn geometry_view(g: Geometry) -> GeometryView {
    GeometryView {
        positions: g.positions@,
        slots: g.slots@,
        offsets: g.offsets@,
        kv_len: g.kv_len as int,
        pages: g.pages as int,
        writable_from: g.writable_from as int,
    }
}

impl View for Ask {
    type V = AskView;

    open spec fn view(&self) -> AskView {
        match *self {
            Ask::Remove(address) => AskView::Remove(address@),
            Ask::Reserve(n) => AskView::Reserve(n as int),
            Ask::Split(n) => AskView::Split(n as int),
            Ask::Fire { tokens, geometry, folded } => AskView::Fire {
                tokens: tokens@,
                geometry: geometry_view(geometry),
                folded,
            },
            Ask::Tell(t) => AskView::Tell(t),
            Ask::Park(pages, address) => AskView::Park(pages as int, address@),
            Ask::End => AskView::End,
        }
    }
}

// ---------------------------------------------------------------------------
// The model of a generation
// ---------------------------------------------------------------------------

/// What stays the same over a generation.
pub struct JobView {
    /// The tokens to prefill, at least one.
    pub tokens: Seq<u32>,
    pub max_tokens: usize,
    pub page: u32,
    pub pool_total: u32,
    /// What is to be parked: cuts, and the address of each.
    pub publish: Seq<(u32, String)>,
    /// A folded state is bound beside the pages.
    pub folded: bool,
}

/// How a generation stands.
#[verifier::ext_equal]
pub struct RunView {
    pub phase: Phase,
    /// Prompt tokens served from parked pages, and the entry that they come from.
    pub cached: u32,
    pub resumed: Option<Seq<char>>,
    /// The pages that the working set came with.
    pub have: u32,
    /// The pool's page ids.
    pub pool: Seq<u32>,
    /// The passes of the prefill, and how many of them ran.
    pub spans: Seq<(u32, u32)>,
    pub at: int,
    /// The token drawn last.
    pub token: u32,
    /// No token is told yet.
    pub first: bool,
    /// How many tokens may still be decoded.
    pub left: int,
    /// How many tokens are held.
    pub held: int,
    /// How many cuts have been dealt with, and how many of them are parked.
    pub cuts: int,
    pub published: int,
    pub error: Option<Seq<char>>,
}

impl JobView {
    /// The prompt's length.
    pub open spec fn n(self) -> u32 {
        self.tokens.len() as u32
    }

    /// The pages of the pool, where the set came with `have`.
    pub open spec fn size(self, have: u32) -> int {
        pool_size(self.n(), self.max_tokens, self.page, self.pool_total, have)
    }

    /// The turn can be counted in 32 bits, and its pages rounded.
    pub open spec fn countable(self) -> bool {
        &&& self.page > 0
        &&& 0 < self.tokens.len()
        &&& self.tokens.len() + self.max_tokens + 2 <= u32::MAX
        &&& needed_pages(self.n(), self.max_tokens, self.page) <= 0x8000_0000
    }
}

/// Spans split a length: they follow each other from its beginning to its end.
pub open spec fn splits(spans: Seq<(u32, u32)>, len: int) -> bool {
    &&& spans.len() > 0
    &&& spans[0].0 == 0
    &&& spans.last().1 == len
    &&& forall|i: int| 0 <= i < spans.len() ==> (#[trigger] spans[i]).0 <= spans[i].1 <= len
    &&& forall|i: int| 0 <= i < spans.len() - 1 ==> (#[trigger] spans[i]).1 == spans[i + 1].0
}

/// The pages that a set came with: the first ones.
pub open spec fn came_with(have: u32) -> Seq<u32> {
    Seq::new(have as nat, |i: int| i as u32)
}

/// The geometry of a pass over the tokens from `base` up to `end`.
pub open spec fn pass_over(pool: Seq<u32>, page: u32, base: u32, end: u32, writable: int) -> GeometryView {
    GeometryView {
        positions: Seq::new((end - base) as nat, |i: int| (base + i) as u32),
        slots: Seq::new((end - base) as nat, |i: int| cell(pool, page, base + i).0),
        offsets: Seq::new((end - base) as nat, |i: int| cell(pool, page, base + i).1),
        kv_len: end as int,
        pages: over(end as int, page as int),
        writable_from: writable,
    }
}

/// A generation that is over.
pub open spec fn ended(v: RunView, error: Option<Seq<char>>) -> (RunView, AskView) {
    (RunView { phase: Phase::Over, error, ..v }, AskView::End)
}

/// A generation that knows its pool.
pub open spec fn pooled(j: JobView, v: RunView) -> (RunView, AskView) {
    (RunView { phase: Phase::Splitting, ..v }, AskView::Split(j.n() - v.cached))
}

/// A generation that reserves what its pool lacks.
pub open spec fn reserving(j: JobView, v: RunView) -> (RunView, AskView) {
    if j.size(v.have) > v.have {
        (RunView { phase: Phase::Reserving, ..v }, AskView::Reserve(j.size(v.have) - v.have))
    } else {
        pooled(j, RunView { pool: came_with(v.have), ..v })
    }
}

/// A generation that runs its next prefill pass, or tells the token that the last
/// one drew. Parked pages are read, and never written.
pub open spec fn filling(j: JobView, v: RunView) -> (RunView, AskView) {
    if v.at < v.spans.len() {
        let base = (v.cached + v.spans[v.at].0) as u32;
        let end = (v.cached + v.spans[v.at].1) as u32;
        (
            RunView { phase: Phase::Filling, ..v },
            AskView::Fire {
                tokens: j.tokens.subrange(base as int, end as int),
                geometry: pass_over(v.pool, j.page, base, end, v.cached as int / j.page as int),
                folded: j.folded,
            },
        )
    } else {
        (RunView { phase: Phase::Telling, ..v }, AskView::Tell(v.token))
    }
}

/// A generation that decodes behind what it holds. Every decode pass may write from
/// the page on that the prompt ends in.
pub open spec fn decoding(j: JobView, v: RunView) -> (RunView, AskView) {
    (
        RunView { phase: Phase::Decoding, ..v },
        AskView::Fire {
            tokens: seq![v.token],
            geometry: pass_over(
                v.pool,
                j.page,
                v.held as u32,
                (v.held + 1) as u32,
                j.n() as int / j.page as int,
            ),
            folded: j.folded,
        },
    )
}

/// A cut can be parked from a set of `have` pages.
pub open spec fn parks(cut: u32, page: u32, have: nat) -> bool {
    page > 0 && cut > 0 && cut as int % page as int == 0 && cut as int / page as int <= have
}

/// The first cut from `k` on that can be parked.
pub open spec fn next_cut(cuts: Seq<(u32, String)>, page: u32, have: nat, k: int) -> Option<int>
    decreases cuts.len() - k,
{
    if k < 0 || k >= cuts.len() {
        None
    } else if parks(cuts[k].0, page, have) {
        Some(k)
    } else {
        next_cut(cuts, page, have, k + 1)
    }
}

/// A generation that parks its next cut, or has parked the last.
pub open spec fn parking(j: JobView, v: RunView) -> (RunView, AskView) {
    match next_cut(j.publish, j.page, v.pool.len(), v.cuts) {
        Some(k) => (
            RunView { phase: Phase::Parking, cuts: k, ..v },
            AskView::Park(j.publish[k].0 as int / j.page as int, j.publish[k].1@),
        ),
        None => retiring(j, v),
    }
}

/// A generation behind its parking: the entry that it resumed from goes where
/// another is parked in its place.
pub open spec fn retiring(j: JobView, v: RunView) -> (RunView, AskView) {
    match v.resumed {
        Some(a) => if v.published > 0 && !republished(j.publish, a) {
            (RunView { phase: Phase::Retiring, ..v }, AskView::Remove(a))
        } else {
            ended(v, v.error)
        },
        None => ended(v, v.error),
    }
}

/// A generation behind a told token: the first one was the prefill's.
pub open spec fn told(j: JobView, v: RunView, flow: Flow) -> (RunView, AskView) {
    let left = if flow == Flow::Break {
        0
    } else if v.first {
        j.max_tokens - 1
    } else {
        v.left
    };
    let a = RunView { first: false, left, ..v };
    if left > 0 {
        decoding(j, a)
    } else {
        parking(j, a)
    }
}

/// A generation behind an event, and what it asks for.
pub open spec fn next(j: JobView, v: RunView, e: EventView) -> (RunView, AskView) {
    match e {
        EventView::Removed => if v.phase == Phase::Dropping {
            reserving(j, v)
        } else {
            ended(v, v.error)
        },
        EventView::Reserved(ids) => pooled(j, RunView { pool: came_with(v.have) + ids, ..v }),
        EventView::Split(spans) => filling(j, RunView { spans, at: 0, ..v }),
        EventView::Sampled(t) => if v.phase == Phase::Filling {
            filling(j, RunView { token: t, at: v.at + 1, ..v })
        } else {
            (
                RunView {
                    phase: Phase::Telling,
                    token: t,
                    held: v.held + 1,
                    left: v.left - 1,
                    ..v
                },
                AskView::Tell(t),
            )
        },
        EventView::Failed(x) => if v.phase == Phase::Decoding {
            parking(j, RunView { error: Some(x), ..v })
        } else {
            ended(v, Some(x))
        },
        EventView::Told(flow) => told(j, v, flow),
        EventView::Parked(kept) => parking(
            j,
            RunView {
                published: v.published + (if kept {
                    1int
                } else {
                    0
                }),
                cuts: v.cuts + 1,
                ..v
            },
        ),
    }
}

/// An event answers what a generation waits for: as many pages as it reserved, and
/// passes that split its prefill.
pub open spec fn answers(j: JobView, v: RunView, e: EventView) -> bool {
    match e {
        EventView::Removed => v.phase == Phase::Dropping || v.phase == Phase::Retiring,
        EventView::Reserved(ids) => v.phase == Phase::Reserving && ids.len() == j.size(v.have)
            - v.have,
        EventView::Split(spans) => v.phase == Phase::Splitting && splits(spans, j.n() - v.cached),
        EventView::Sampled(_) => v.phase == Phase::Filling || v.phase == Phase::Decoding,
        EventView::Failed(_) => v.phase == Phase::Reserving || v.phase == Phase::Filling || v.phase
            == Phase::Decoding,
        EventView::Told(_) => v.phase == Phase::Telling,
        EventView::Parked(_) => v.phase == Phase::Parking,
    }
}

/// How a generation stands, whatever has happened: what is cached is within the
/// prompt, the pool is as large as the turn needs, and what is held and may still be
/// decoded is within the prompt and the tokens wanted.
pub open spec fn sound(j: JobView, v: RunView) -> bool {
    v.phase != Phase::Over ==> {
        &&& j.countable()
        &&& j.max_tokens > 0
        &&& match v.resumed {
            Some(_) => fits(v.cached, j.n(), j.page, v.have),
            None => v.cached == 0 && v.have == 0,
        }
        &&& v.phase != Phase::Dropping ==> j.size(v.have) <= u32::MAX
        &&& v.phase != Phase::Dropping && v.phase != Phase::Reserving ==> v.pool.len() == j.size(
            v.have,
        )
        &&& v.phase == Phase::Dropping || v.phase == Phase::Reserving || v.phase
            == Phase::Splitting || v.phase == Phase::Filling ==> v.first
        &&& v.phase == Phase::Filling ==> splits(v.spans, j.n() - v.cached) && 0 <= v.at
            < v.spans.len()
        &&& v.first ==> v.held == j.n() && v.left == 0
        &&& !v.first ==> v.held >= j.n() && v.left >= 0 && v.held + v.left <= j.n() + j.max_tokens
            - 1
        &&& v.phase == Phase::Decoding ==> !v.first && v.left > 0
        &&& 0 <= v.published <= v.cuts <= j.publish.len()
        &&& v.phase == Phase::Parking ==> v.cuts < j.publish.len()
    }
}

// ---------------------------------------------------------------------------
// The generation
// ---------------------------------------------------------------------------

/// What a generation is asked for.
pub struct Job {
    pub prompt: Vec<u32>,
    pub max_tokens: usize,
    /// The tokens of a page.
    pub page: u32,
    /// The pages of the whole pool, zero where that is not known.
    pub pool_total: u32,
    pub publish: Vec<(u32, String)>,
}

impl Job {
    /// Whether the turn can be counted, where it generates at all.
    pub fn countable(&self, kind: ForwardKind) -> (r: bool)
        ensures
            r == (self.max_tokens > 0 && kind != ForwardKind::Recurrent ==> job_of(*self, kind).countable()),
    {
        if self.max_tokens == 0 || kind == ForwardKind::Recurrent {
            return true;
        }
        let n: usize = if self.prompt.len() == 0 {
            1
        } else {
            self.prompt.len()
        };
        let most: usize = 0xffff_fffd;
        if self.page == 0 || n > most || self.max_tokens > most - n {
            return false;
        }
        let need = ceil_div(n as u32 + self.max_tokens as u32 + 2, self.page);
        need <= 0x8000_0000
    }
}

/// What a job fixes.
pub open spec fn job_of(job: Job, kind: ForwardKind) -> JobView {
    JobView {
        tokens: if job.prompt@.len() == 0 {
            seq![0u32]
        } else {
            job.prompt@
        },
        max_tokens: job.max_tokens,
        page: job.page,
        pool_total: job.pool_total,
        publish: job.publish@,
        folded: kind == ForwardKind::Hybrid,
    }
}

/// A generation before anything has happened.
pub open spec fn fresh() -> RunView {
    RunView {
        phase: Phase::Over,
        cached: 0,
        resumed: None,
        have: 0,
        pool: Seq::empty(),
        spans: Seq::empty(),
        at: 0,
        token: 0,
        first: true,
        left: 0,
        held: 0,
        cuts: 0,
        published: 0,
        error: None,
    }
}

/// A generation that begins: one that wants no token is over at once, and so is
/// one of a model without pages. A resume that does not fit is dropped, and its
/// entry removed.
pub open spec fn begun(j: JobView, kind: ForwardKind, resume: Option<Resume>, have: u32) -> (
    RunView,
    AskView,
) {
    let v = RunView { held: j.n() as int, ..fresh() };
    if j.max_tokens == 0 {
        ended(fresh(), None)
    } else if kind == ForwardKind::Recurrent {
        ended(fresh(), Some(NO_PAGES@))
    } else {
        match resume {
            Some(p) => if fits(p.cached_tokens, j.n(), j.page, have) {
                reserving(
                    j,
                    RunView { cached: p.cached_tokens, resumed: Some(p.address@), have, ..v },
                )
            } else {
                (RunView { phase: Phase::Dropping, ..v }, AskView::Remove(p.address@))
            },
            None => reserving(j, v),
        }
    }
}

/// A generation under way.
pub struct Generation {
    tokens: Vec<u32>,
    max_tokens: usize,
    page: u32,
    pool_total: u32,
    publish: Vec<(u32, String)>,
    folded: bool,
    phase: Phase,
    cached: u32,
    resumed: Option<String>,
    have: u32,
    pool: Vec<u32>,
    spans: Vec<(u32, u32)>,
    at: usize,
    token: u32,
    first: bool,
    left: usize,
    held: u32,
    cuts: usize,
    published: usize,
    error: Option<String>,
}

impl View for Generation {
    type V = RunView;

    closed spec fn view(&self) -> RunView {
        RunView {
            phase: self.phase,
            cached: self.cached,
            resumed: match self.resumed {
                Some(a) => Some(a@),
                None => None,
            },
            have: self.have,
            pool: self.pool@,
            spans: self.spans@,
            at: self.at as int,
            token: self.token,
            first: self.first,
            left: self.left as int,
            held: self.held as int,
            cuts: self.cuts as int,
            published: self.published as int,
            error: match self.error {
                Some(e) => Some(e@),
                None => None,
            },
        }
    }
}

impl Generation {
    /// What stays the same over the generation.
    pub closed spec fn job(&self) -> JobView {
        JobView {
            tokens: self.tokens@,
            max_tokens: self.max_tokens,
            page: self.page,
            pool_total: self.pool_total,
            publish: self.publish@,
            folded: self.folded,
        }
    }

    /// Begins a generation, with the resume point that was found, and how many
    /// pages its set has.
    pub fn begin(job: Job, kind: ForwardKind, resume: Option<Resume>, have: u32) -> (r: (
        Generation,
        Ask,
    ))
        requires
            job.max_tokens > 0 && kind != ForwardKind::Recurrent ==> job_of(job, kind).countable(),
        ensures
            r.0.job() == job_of(job, kind),
            sound(r.0.job(), r.0@),
            (r.0@, r.1@) == begun(job_of(job, kind), kind, resume, have),
    {
        let tokens = prompt_or_pad(job.prompt.as_slice());
        let ghost j = job_of(job, kind);
        let mut g = Generation {
            tokens,
            max_tokens: job.max_tokens,
            page: job.page,
            pool_total: job.pool_total,
            publish: job.publish,
            folded: kind == ForwardKind::Hybrid,
            phase: Phase::Over,
            cached: 0,
            resumed: None,
            have: 0,
            pool: Vec::new(),
            spans: Vec::new(),
            at: 0,
            token: 0,
            first: true,
            left: 0,
            held: 0,
            cuts: 0,
            published: 0,
            error: None,
        };
        proof {
            assert(g.job() == j);
            assert(g@ =~= fresh());
        }
        match begin(job.max_tokens, kind) {
            Begin::Nothing => (g, Ask::End),
            Begin::NoPages => {
                g.error = Some(NO_PAGES.to_owned());
                proof {
                    assert(g@ =~= ended(fresh(), Some(NO_PAGES@)).0);
                }
                (g, Ask::End)
            },
            Begin::Run { folded: _ } => {
                let n = g.tokens.len() as u32;
                g.held = n;
                let begun_at = start(resume, n, g.page, have);
                match begun_at.dropped {
                    Some(address) => {
                        g.phase = Phase::Dropping;
                        proof {
                            assert(g@ =~= begun(j, kind, resume, have).0);
                        }
                        return (g, Ask::Remove(address));
                    },
                    None => {},
                }
                match begun_at.resumed {
                    Some(address) => {
                        g.cached = begun_at.cached;
                        g.resumed = Some(address);
                        g.have = have;
                    },
                    None => {},
                }
                g.phase = Phase::Dropping;
                let ghost before = g@;
                proof {
                    let v = RunView { held: n as int, ..fresh() };
                    assert(reserving(j, before) == reserving(
                        j,
                        RunView { phase: Phase::Over, ..before },
                    ));
                    assert(RunView { phase: Phase::Over, ..before } =~= match resume {
                        Some(p) => RunView {
                            cached: p.cached_tokens,
                            resumed: Some(p.address@),
                            have,
                            ..v
                        },
                        None => v,
                    });
                }
                let ask = g.reserve();
                (g, ask)
            },
        }
    }

    fn reserve(&mut self) -> (r: Ask)
        requires
            sound(old(self).job(), old(self)@),
            old(self)@.phase == Phase::Dropping,
        ensures
            final(self).job() == old(self).job(),
            sound(final(self).job(), final(self)@),
            (final(self)@, r@) == reserving(old(self).job(), old(self)@),
    {
        let n = self.tokens.len() as u32;
        let size = pool_pages(n, self.max_tokens, self.page, self.pool_total, self.have);
        proof {
            law_the_pool_holds_the_turn(n, self.max_tokens, self.page, self.pool_total, self.have);
        }
        if size > self.have {
            self.phase = Phase::Reserving;
            proof {
                assert(self@ =~= RunView { phase: Phase::Reserving, ..old(self)@ });
            }
            Ask::Reserve(size - self.have)
        } else {
            let none: Vec<u32> = Vec::new();
            self.split(none)
        }
    }

    fn split(&mut self, granted: Vec<u32>) -> (r: Ask)
        requires
            sound(old(self).job(), old(self)@),
            old(self)@.phase == Phase::Dropping || old(self)@.phase == Phase::Reserving,
            granted@.len() == old(self).job().size(old(self)@.have) - old(self)@.have,
            old(self).job().size(old(self)@.have) <= u32::MAX,
        ensures
            final(self).job() == old(self).job(),
            sound(final(self).job(), final(self)@),
            (final(self)@, r@) == pooled(
                old(self).job(),
                RunView { pool: came_with(old(self)@.have) + granted@, ..old(self)@ },
            ),
            granted@.len() == 0 ==> (final(self)@, r@) == pooled(
                old(self).job(),
                RunView { pool: came_with(old(self)@.have), ..old(self)@ },
            ),
    {
        self.pool = pool_ids(self.have, granted.as_slice());
        self.phase = Phase::Splitting;
        proof {
            assert(self.pool@ =~= came_with(self.have) + granted@);
            if granted@.len() == 0 {
                assert(self.pool@ =~= came_with(self.have));
            }
            assert(self@ =~= RunView {
                phase: Phase::Splitting,
                pool: self.pool@,
                ..old(self)@
            });
        }
        Ask::Split(self.tokens.len() as u32 - self.cached)
    }

    fn fill(&mut self) -> (r: Ask)
        requires
            sound(old(self).job(), RunView { phase: Phase::Splitting, ..old(self)@ }),
            splits(old(self)@.spans, old(self).job().n() - old(self)@.cached),
            0 <= old(self)@.at <= old(self)@.spans.len(),
            old(self)@.first,
        ensures
            final(self).job() == old(self).job(),
            sound(final(self).job(), final(self)@),
            (final(self)@, r@) == filling(old(self).job(), old(self)@),
    {
        if self.at < self.spans.len() {
            let span = self.spans[self.at];
            let ghost j = self.job();
            proof {
                law_the_pool_holds_the_turn(
                    j.n(),
                    self.max_tokens,
                    self.page,
                    self.pool_total,
                    self.have,
                );
                assert(self.spans@[self.at as int] == span);
            }
            let geometry = prefill_chunk(span, self.cached, self.pool.as_slice(), self.page);
            let base = self.cached + span.0;
            let end = self.cached + span.1;
            let mut tokens: Vec<u32> = Vec::new();
            tokens.extend_from_slice(
                vstd::slice::slice_subrange(self.tokens.as_slice(), base as usize, end as usize),
            );
            self.phase = Phase::Filling;
            proof {
                assert(tokens@ =~= self.tokens@.subrange(base as int, end as int));
                assert(geometry_view(geometry) =~= pass_over(
                    self.pool@,
                    self.page,
                    base,
                    end,
                    self.cached as int / self.page as int,
                ));
                assert(self@ =~= RunView { phase: Phase::Filling, ..old(self)@ });
            }
            Ask::Fire { tokens, geometry, folded: self.folded }
        } else {
            self.phase = Phase::Telling;
            proof {
                assert(self@ =~= RunView { phase: Phase::Telling, ..old(self)@ });
            }
            Ask::Tell(self.token)
        }
    }

    fn decode(&mut self) -> (r: Ask)
        requires
            sound(old(self).job(), old(self)@),
            old(self)@.phase == Phase::Telling,
            !old(self)@.first,
            old(self)@.left > 0,
        ensures
            final(self).job() == old(self).job(),
            sound(final(self).job(), final(self)@),
            (final(self)@, r@) == decoding(old(self).job(), old(self)@),
    {
        let ghost j = self.job();
        proof {
            law_the_pool_holds_the_turn(
                j.n(),
                self.max_tokens,
                self.page,
                self.pool_total,
                self.have,
            );
        }
        let geometry = decode_step(
            self.tokens.len() as u32,
            self.held,
            self.pool.as_slice(),
            self.page,
        );
        let mut tokens: Vec<u32> = Vec::new();
        tokens.push(self.token);
        self.phase = Phase::Decoding;
        proof {
            assert(tokens@ =~= seq![self.token]);
            assert(geometry_view(geometry) =~= pass_over(
                self.pool@,
                self.page,
                self.held,
                (self.held + 1) as u32,
                j.n() as int / self.page as int,
            ));
            assert(self@ =~= RunView { phase: Phase::Decoding, ..old(self)@ });
        }
        Ask::Fire { tokens, geometry, folded: self.folded }
    }

    fn park(&mut self) -> (r: Ask)
        requires
            sound(old(self).job(), RunView { phase: Phase::Telling, ..old(self)@ }),
            old(self)@.phase != Phase::Over,
        ensures
            final(self).job() == old(self).job(),
            sound(final(self).job(), final(self)@),
            (final(self)@, r@) == parking(old(self).job(), old(self)@),
    {
        let ghost j = self.job();
        let ghost from = self.cuts as int;
        let have = self.pool.len() as u32;
        let mut k: usize = self.cuts;
        while k < self.publish.len()
            invariant
                *self == *old(self),
                j == self.job(),
                j.countable(),
                from <= k <= self.publish@.len(),
                have == self.pool@.len(),
                sound(j, RunView { phase: Phase::Telling, ..self@ }),
                self@.phase != Phase::Over,
                from == self@.cuts,
                next_cut(j.publish, j.page, self.pool@.len(), from) == next_cut(
                    j.publish,
                    j.page,
                    self.pool@.len(),
                    k as int,
                ),
            decreases self.publish.len() - k,
        {
            let cut = self.publish[k].0;
            match publish(cut, self.page, have) {
                Ok(pages) => {
                    proof {
                        lemma_pages(cut, self.page, pages);
                    }
                    let address = self.publish[k].1.clone();
                    self.cuts = k;
                    self.phase = Phase::Parking;
                    proof {
                        assert(self@ =~= RunView {
                            phase: Phase::Parking,
                            cuts: k as int,
                            ..old(self)@
                        });
                    }
                    return Ask::Park(pages, address);
                },
                Err(_) => {
                    proof {
                        lemma_not_parked(cut, self.page, have);
                    }
                },
            }
            k += 1;
        }
        let resumed = match &self.resumed {
            Some(a) => Some(a.as_str()),
            None => None,
        };
        if retires(resumed, self.publish.as_slice(), self.published) {
            if let Some(a) = &self.resumed {
                let address = a.clone();
                self.phase = Phase::Retiring;
                proof {
                    assert(self@ =~= RunView { phase: Phase::Retiring, ..old(self)@ });
                }
                return Ask::Remove(address);
            }
        }
        self.phase = Phase::Over;
        proof {
            assert(self@ =~= ended(old(self)@, old(self)@.error).0);
        }
        Ask::End
    }

    /// Takes what has happened and answers what is to be done next.
    pub fn on(&mut self, event: Event) -> (r: Ask)
        requires
            sound(old(self).job(), old(self)@),
            answers(old(self).job(), old(self)@, event@),
        ensures
            final(self).job() == old(self).job(),
            sound(final(self).job(), final(self)@),
            (final(self)@, r@) == next(old(self).job(), old(self)@, event@),
    {
        match event {
            Event::Removed => {
                if self.phase == Phase::Dropping {
                    self.reserve()
                } else {
                    self.phase = Phase::Over;
                    proof {
                        assert(self@ =~= ended(old(self)@, old(self)@.error).0);
                    }
                    Ask::End
                }
            },
            Event::Reserved(ids) => self.split(ids),
            Event::Split(spans) => {
                self.spans = spans;
                self.at = 0;
                proof {
                    assert(self@ =~= RunView { spans: spans@, at: 0, ..old(self)@ });
                }
                self.fill()
            },
            Event::Sampled(t) => {
                if self.phase == Phase::Filling {
                    proof {
                        assert(self.at < self.spans.len());
                    }
                    self.token = t;
                    self.at = self.at + 1;
                    proof {
                        assert(self@ =~= RunView {
                            token: t,
                            at: old(self)@.at + 1,
                            ..old(self)@
                        });
                    }
                    self.fill()
                } else {
                    self.token = t;
                    self.held = self.held + 1;
                    self.left = self.left - 1;
                    self.phase = Phase::Telling;
                    proof {
                        assert(self@ =~= next(old(self).job(), old(self)@, event@).0);
                    }
                    Ask::Tell(t)
                }
            },
            Event::Failed(e) => {
                let decoding_failed = self.phase == Phase::Decoding;
                self.error = Some(e);
                if decoding_failed {
                    proof {
                        assert(self@ =~= RunView { error: Some(e@), ..old(self)@ });
                    }
                    self.park()
                } else {
                    self.phase = Phase::Over;
                    proof {
                        assert(self@ =~= ended(old(self)@, Some(e@)).0);
                    }
                    Ask::End
                }
            },
            Event::Told(flow) => {
                let done = flow == Flow::Break;
                self.left = if done {
                    0
                } else if self.first {
                    decode_budget(false, self.max_tokens)
                } else {
                    self.left
                };
                self.first = false;
                proof {
                    assert(self@ =~= RunView {
                        first: false,
                        left: self.left as int,
                        ..old(self)@
                    });
                }
                if self.left > 0 {
                    self.decode()
                } else {
                    self.park()
                }
            },
            Event::Parked(kept) => {
                proof {
                    assert(self.cuts < self.publish.len());
                }
                if kept {
                    self.published = self.published + 1;
                }
                self.cuts = self.cuts + 1;
                proof {
                    assert(self@ =~= RunView {
                        published: old(self)@.published + (if kept {
                            1int
                        } else {
                            0
                        }),
                        cuts: old(self)@.cuts + 1,
                        ..old(self)@
                    });
                }
                self.park()
            },
        }
    }

    /// What the generation waits for.
    pub fn phase(&self) -> (r: Phase)
        ensures
            r == self@.phase,
    {
        self.phase
    }

    /// What the generation did, as opposed to what was planned.
    pub fn outcome(self) -> (r: Outcome)
        ensures
            r.cached_tokens == self@.cached,
            r.published == self@.published,
            match r.error {
                Some(e) => self@.error == Some(e@),
                None => self@.error is None,
            },
    {
        Outcome { error: self.error, cached_tokens: self.cached, published: self.published }
    }
}

proof fn lemma_pages(cut: u32, page: u32, pages: u32)
    requires
        page > 0,
        pages as int * page as int == cut,
    ensures
        cut as int % page as int == 0,
        cut as int / page as int == pages,
{
    vstd::arithmetic::div_mod::lemma_fundamental_div_mod_converse(
        cut as int,
        page as int,
        pages as int,
        0,
    );
}

proof fn lemma_not_parked(cut: u32, page: u32, have: u32)
    requires
        page == 0 || cut == 0 || cut as int % page as int != 0 || exists|pages: u32|
            pages > have && #[trigger] (pages as int * page as int) == cut,
    ensures
        !parks(cut, page, have as nat),
{
    if page > 0 && cut > 0 && cut as int % page as int == 0 {
        let pages = choose|pages: u32|
            pages > have && #[trigger] (pages as int * page as int) == cut;
        lemma_pages(cut, page, pages);
    }
}

// ---------------------------------------------------------------------------
// Laws
// ---------------------------------------------------------------------------

proof fn lemma_sound_parking(j: JobView, v: RunView)
    requires
        sound(j, RunView { phase: Phase::Telling, ..v }),
    ensures
        sound(j, parking(j, v).0),
{
    lemma_next_cut(j.publish, j.page, v.pool.len(), v.cuts);
}

proof fn lemma_next_cut(cuts: Seq<(u32, String)>, page: u32, have: nat, k: int)
    requires
        0 <= k <= cuts.len(),
    ensures
        match next_cut(cuts, page, have, k) {
            Some(i) => k <= i < cuts.len() && parks(cuts[i].0, page, have),
            None => true,
        },
    decreases cuts.len() - k,
{
    if k < cuts.len() && !parks(cuts[k].0, page, have) {
        lemma_next_cut(cuts, page, have, k + 1);
    }
}

proof fn lemma_sound_reserving(j: JobView, v: RunView)
    requires
        sound(j, RunView { phase: Phase::Dropping, ..v }),
    ensures
        sound(j, reserving(j, v).0),
{
    lemma_pool_size_fits(j.n(), j.max_tokens, j.page, j.pool_total, v.have);
    law_the_pool_holds_the_turn(j.n(), j.max_tokens, j.page, j.pool_total, v.have);
}

/// A generation stands soundly from its beginning, over whatever happens.
pub proof fn law_a_generation_stays_sound(
    j: JobView,
    kind: ForwardKind,
    resume: Option<Resume>,
    have: u32,
    v: RunView,
    e: EventView,
)
    ensures
        j.countable() ==> sound(j, begun(j, kind, resume, have).0),
        sound(j, v) && answers(j, v, e) ==> sound(j, next(j, v, e).0),
{
    if j.countable() && j.max_tokens > 0 {
        let w = RunView { held: j.n() as int, ..fresh() };
        lemma_sound_reserving(j, w);
        if let Some(p) = resume {
            if fits(p.cached_tokens, j.n(), j.page, have) {
                lemma_sound_reserving(
                    j,
                    RunView { cached: p.cached_tokens, resumed: Some(p.address@), have, ..w },
                );
            }
        }
    }
    if sound(j, v) && answers(j, v, e) {
        match e {
            EventView::Removed => {
                if v.phase == Phase::Dropping {
                    lemma_sound_reserving(j, v);
                }
            },
            EventView::Failed(x) => {
                if v.phase == Phase::Decoding {
                    lemma_sound_parking(j, RunView { error: Some(x), ..v });
                }
            },
            EventView::Told(flow) => {
                if flow == Flow::Break || (v.first && j.max_tokens == 1) || (!v.first && v.left == 0) {
                    lemma_sound_parking(j, RunView { first: false, left: 0, ..v });
                }
            },
            EventView::Parked(kept) => {
                lemma_sound_parking(
                    j,
                    RunView {
                        published: v.published + (if kept {
                            1int
                        } else {
                            0
                        }),
                        cuts: v.cuts + 1,
                        ..v
                    },
                );
            },
            _ => {},
        }
    }
}

/// A generation whose pages could not be reserved, or whose prefill failed, is over
/// at once: it parks nothing, for its pages were not all written, and it retires
/// nothing.
pub proof fn law_a_failed_prefill_parks_nothing(j: JobView, v: RunView, x: Seq<char>)
    requires
        v.phase == Phase::Reserving || v.phase == Phase::Filling,
    ensures
        next(j, v, EventView::Failed(x)) == ended(v, Some(x)),
{
}

/// A decode that fails still parks what the prefill wrote, and its error stands.
pub proof fn law_a_failed_decode_parks_the_prefix(j: JobView, v: RunView, x: Seq<char>)
    requires
        v.phase == Phase::Decoding,
    ensures
        ({
            let (w, ask) = next(j, v, EventView::Failed(x));
            &&& w.error == Some(x)
            &&& next_cut(j.publish, j.page, v.pool.len(), v.cuts) is Some ==> ask is Park
        }),
{
}

/// Nothing is written once a page may be shared: from the first page parked on, no
/// pass is run.
pub proof fn law_nothing_is_written_behind_a_park(j: JobView, v: RunView, e: EventView)
    requires
        v.phase == Phase::Parking || v.phase == Phase::Retiring,
        answers(j, v, e),
    ensures
        ({
            let (w, ask) = next(j, v, e);
            &&& !(ask is Fire)
            &&& w.phase == Phase::Parking || w.phase == Phase::Retiring || w.phase == Phase::Over
        }),
{
}

/// The prefill writes the prompt from the resume point to its end, each position
/// once: a pass starts where the one before it ended, the first at the resume point
/// and the last at the prompt's end. None writes a page that was parked before.
pub proof fn law_the_prefill_writes_the_rest_of_the_prompt(j: JobView, v: RunView, k: int)
    requires
        j.countable(),
        v.cached < j.n(),
        splits(v.spans, j.n() - v.cached),
        0 <= k < v.spans.len(),
    ensures
        ({
            let base = v.cached + v.spans[k].0;
            let end = v.cached + v.spans[k].1;
            let ask = filling(j, RunView { at: k, ..v }).1;
            &&& base == (if k == 0 {
                v.cached as int
            } else {
                v.cached + v.spans[k - 1].1
            })
            &&& k == v.spans.len() - 1 ==> end == j.n()
            &&& ask is Fire
            &&& ask->tokens == j.tokens.subrange(base, end)
            &&& ask->geometry.positions == Seq::new((end - base) as nat, |i: int| (base + i) as u32)
            &&& forall|i: int|
                0 <= i < end - base ==> #[trigger] ask->geometry.positions[i] as int / j.page as int
                    >= ask->geometry.writable_from
        }),
{
    let base = v.cached + v.spans[k].0;
    let end = v.cached + v.spans[k].1;
    let ask = filling(j, RunView { at: k, ..v }).1;
    if k > 0 {
        assert(v.spans[k - 1].1 == v.spans[k - 1 + 1].0);
    }
    assert forall|i: int| 0 <= i < end - base implies #[trigger] ask->geometry.positions[i] as int
        / j.page as int >= ask->geometry.writable_from by {
        law_shared_pages_are_never_written(v.cached, j.page, base + i);
    }
}

/// A decode pass writes the one position behind what is held, which lies at or
/// behind the page that the prompt ends in: the bound of every decode pass of the
/// turn. So none writes a page that was parked before.
pub proof fn law_decoding_writes_behind_the_prompt(j: JobView, v: RunView)
    requires
        sound(j, v),
        v.phase == Phase::Telling,
        !v.first,
        v.left > 0,
    ensures
        ({
            let ask = decoding(j, v).1;
            &&& ask is Fire
            &&& ask->tokens == seq![v.token]
            &&& ask->geometry.positions == seq![v.held as u32]
            &&& ask->geometry.writable_from == j.n() as int / j.page as int
            &&& v.cached as int / j.page as int <= ask->geometry.writable_from
            &&& ask->geometry.writable_from <= v.held / j.page as int
        }),
{
    let ask = decoding(j, v).1;
    assert(ask->geometry.positions =~= seq![v.held as u32]);
    law_shared_pages_are_never_written(j.n(), j.page, v.held);
    law_shared_pages_are_never_written(v.cached, j.page, j.n() as int);
}

/// An entry goes only for a reason: it failed its own geometry, or the turn that
/// resumed from it parked another in its place, under another address.
pub proof fn law_only_a_replacement_retires(j: JobView, v: RunView, e: EventView)
    requires
        answers(j, v, e),
    ensures
        match next(j, v, e) {
            (w, AskView::Remove(a)) => w.published > 0 && v.resumed == Some(a) && !republished(
                j.publish,
                a,
            ),
            _ => true,
        },
{
}

/// No more tokens are told than were wanted: the prefill's one, and one for each
/// token held behind the prompt.
pub proof fn law_no_more_tokens_than_wanted(j: JobView, v: RunView)
    requires
        sound(j, v),
        v.phase != Phase::Over,
        !v.first,
    ensures
        1 + (v.held - j.n()) <= j.max_tokens,
{
}

/// A pass writes each of its tokens at its own position, in the cell of the pool
/// that the position has, and reads everything up to its end; it may write from
/// the given page on.
pub proof fn law_a_pass_writes_its_cells(
    pool: Seq<u32>,
    page: u32,
    base: u32,
    end: u32,
    writable: int,
    i: int,
)
    requires
        page > 0,
        base <= end,
        0 <= i < end - base,
    ensures
        ({
            let g = pass_over(pool, page, base, end, writable);
            &&& g.positions.len() == end - base && g.slots.len() == end - base && g.offsets.len() == end
                - base
            &&& g.positions[i] == base + i
            &&& g.slots[i] == pool[(base + i) / page as int]
            &&& g.offsets[i] as int == (base + i) % page as int
            &&& g.kv_len == end
            &&& g.pages * page >= end
            &&& (g.pages - 1) * page < end
            &&& g.writable_from == writable
        }),
{
    law_a_quotient_is_rounded_up(end as int, page as int);
    let q = over(end as int, page as int);
    assert(page * q == q * page) by (nonlinear_arith);
    assert(page * (q - 1) == (q - 1) * page) by (nonlinear_arith);
    assert(0 <= (base + i) % page as int) by (nonlinear_arith)
        requires
            page > 0,
            base + i >= 0,
    ;
    assert((base + i) % page as int <= base + i) by (nonlinear_arith)
        requires
            page > 0,
            base + i >= 0,
    ;
}

/// A decode pass writes the one token behind what is held, from the page on that
/// the prompt ends in; a prefill pass writes its span of the prompt, from the page
/// on that is not parked.
pub proof fn law_each_pass_is_of_its_tokens(j: JobView, v: RunView)
    ensures
        match decoding(j, v).1 {
            AskView::Fire { tokens, geometry, folded } => tokens == seq![v.token] && geometry.kv_len
                == (v.held + 1) as u32 && geometry.writable_from == j.n() as int / j.page as int
                && folded == j.folded,
            _ => false,
        },
        0 <= v.at < v.spans.len() ==> match filling(j, v).1 {
            AskView::Fire { tokens, geometry, folded } => tokens == j.tokens.subrange(
                (v.cached + v.spans[v.at].0) as u32 as int,
                (v.cached + v.spans[v.at].1) as u32 as int,
            ) && geometry.kv_len == (v.cached + v.spans[v.at].1) as u32 && geometry.writable_from
                == v.cached as int / j.page as int && folded == j.folded,
            _ => false,
        },
        v.at >= v.spans.len() ==> filling(j, v).1 == AskView::Tell(v.token),
{
}

/// A generation begins by what it is for: without a token to make it is over at
/// once, and so is one of a model without pages, with the reason; a resume that
/// does not fit is removed, and one that does keeps its prefix and its pages.
pub proof fn law_a_generation_begins_as_it_can(
    j: JobView,
    kind: ForwardKind,
    resume: Option<Resume>,
    have: u32,
)
    ensures
        ({
            let v = begun(j, kind, resume, have).0;
            let ask = begun(j, kind, resume, have).1;
            &&& j.max_tokens == 0 ==> ask is End && v.error is None
            &&& j.max_tokens > 0 && kind == ForwardKind::Recurrent ==> ask is End && v.error == Some(
                NO_PAGES@,
            )
            &&& j.max_tokens > 0 && kind != ForwardKind::Recurrent ==> match resume {
                Some(p) => if fits(p.cached_tokens, j.n(), j.page, have) {
                    v.cached == p.cached_tokens && v.resumed == Some(p.address@) && v.have == have
                        && !(ask is Remove)
                } else {
                    ask == AskView::Remove(p.address@) && v.cached == 0 && v.resumed is None
                },
                None => v.cached == 0 && v.resumed is None && v.have == 0 && !(ask is Remove),
            }
        }),
{
}

proof fn lemma_first_parkable(cuts: Seq<(u32, String)>, page: u32, have: nat, k: int)
    requires
        0 <= k,
    ensures
        match next_cut(cuts, page, have, k) {
            Some(i) => k <= i < cuts.len() && parks(cuts[i].0, page, have) && forall|x: int|
                k <= x < i ==> !parks((#[trigger] cuts[x]).0, page, have),
            None => forall|x: int|
                k <= x < cuts.len() ==> !parks((#[trigger] cuts[x]).0, page, have),
        },
    decreases cuts.len() - k,
{
    if k < cuts.len() && !parks(cuts[k].0, page, have) {
        lemma_first_parkable(cuts, page, have, k + 1);
    }
}

/// Cuts are parked in order: the next is the first that is whole pages of the pool,
/// parked as that many pages under its own address, and what is passed over cannot
/// be parked.
pub proof fn law_every_whole_cut_is_parked(j: JobView, v: RunView)
    requires
        0 <= v.cuts,
        j.page > 0,
    ensures
        match parking(j, v).1 {
            AskView::Park(pages, address) => ({
                let k = parking(j, v).0.cuts;
                &&& v.cuts <= k < j.publish.len()
                &&& address == j.publish[k].1@
                &&& pages * j.page == j.publish[k].0
                &&& 0 < pages <= v.pool.len()
                &&& forall|x: int|
                    v.cuts <= x < k ==> !parks((#[trigger] j.publish[x]).0, j.page, v.pool.len())
            }),
            _ => forall|x: int|
                v.cuts <= x < j.publish.len() ==> !parks(
                    (#[trigger] j.publish[x]).0,
                    j.page,
                    v.pool.len(),
                ),
        },
{
    lemma_first_parkable(j.publish, j.page, v.pool.len(), v.cuts);
    if let Some(k) = next_cut(j.publish, j.page, v.pool.len(), v.cuts) {
        let c = j.publish[k].0 as int;
        lemma_fundamental_div_mod(c, j.page as int);
        let q = c / j.page as int;
        assert(j.page * q == q * j.page) by (nonlinear_arith);
        if q <= 0 {
            assert(q * j.page <= 0) by (nonlinear_arith)
                requires
                    q <= 0,
                    j.page > 0,
            ;
        }
    }
}

/// Behind a told token a generation decodes on while it may make more and was not
/// told to stop; behind the prefill's token all but that one may still come.
pub proof fn law_a_told_token_goes_on_or_parks(j: JobView, v: RunView, flow: Flow)
    requires
        j.max_tokens > 0,
    ensures
        ({
            let w = next(j, v, EventView::Told(flow)).0;
            let ask = next(j, v, EventView::Told(flow)).1;
            &&& flow == Flow::Break ==> !(ask is Fire)
            &&& flow == Flow::Continue && v.first ==> (ask is Fire <==> j.max_tokens > 1) && w.left
                == j.max_tokens - 1
            &&& flow == Flow::Continue && !v.first ==> (ask is Fire <==> v.left > 0) && w.left == v.left
            &&& !w.first
        }),
{
}

/// A job without a prompt runs on one token, and is folded exactly where its model
/// is a hybrid.
pub proof fn law_a_job_is_its_request(job: Job, kind: ForwardKind)
    ensures
        ({
            let j = job_of(job, kind);
            &&& job.prompt@.len() > 0 ==> j.tokens == job.prompt@
            &&& job.prompt@.len() == 0 ==> j.tokens == seq![0u32]
            &&& j.max_tokens == job.max_tokens && j.page == job.page && j.pool_total
                == job.pool_total && j.publish == job.publish@
            &&& j.folded <==> kind == ForwardKind::Hybrid
        }),
{
}

/// The pool is the pages that the set came with, in order, and behind them those
/// that were reserved, as many as the turn lacks; what is split is the prompt behind
/// the cached prefix.
pub proof fn law_the_pool_is_what_came_and_what_was_reserved(j: JobView, v: RunView, ids: Seq<u32>, i: int)
    ensures
        ({
            let w = next(j, v, EventView::Reserved(ids)).0;
            &&& w.pool.len() == v.have + ids.len()
            &&& 0 <= i < v.have ==> w.pool[i] == i
            &&& 0 <= i < ids.len() ==> w.pool[v.have + i] == ids[i]
            &&& next(j, v, EventView::Reserved(ids)).1 == AskView::Split(j.n() - v.cached)
        }),
        j.size(v.have) > v.have ==> reserving(j, v).1 == AskView::Reserve(j.size(v.have) - v.have),
        j.size(v.have) <= v.have ==> reserving(j, v).1 == AskView::Split(j.n() - v.cached) && reserving(
            j,
            v,
        ).0.pool == came_with(v.have),
{
}

/// A drawn token is told: behind a prefill pass once there is none left, behind a
/// decode pass at once, and then one more token is held and one fewer may come.
pub proof fn law_a_drawn_token_is_counted(j: JobView, v: RunView, t: u32)
    ensures
        v.phase == Phase::Decoding ==> next(j, v, EventView::Sampled(t)).1 == AskView::Tell(t) && next(
            j,
            v,
            EventView::Sampled(t),
        ).0.held == v.held + 1 && next(j, v, EventView::Sampled(t)).0.left == v.left - 1,
        v.phase == Phase::Filling && v.at + 1 >= v.spans.len() ==> next(j, v, EventView::Sampled(t)).1
            == AskView::Tell(t) && next(j, v, EventView::Sampled(t)).0.held == v.held,
        v.phase == Phase::Filling && 0 <= v.at + 1 < v.spans.len() ==> next(
            j,
            v,
            EventView::Sampled(t),
        ).1 is Fire && next(j, v, EventView::Sampled(t)).0.at == v.at + 1,
        next(j, v, EventView::Sampled(t)).0.token == t,
{
}

/// An entry is republished exactly where what is published has its address.
pub proof fn law_a_republished_entry_is_published(publish: Seq<(u32, String)>, address: Seq<char>, i: int)
    ensures
        0 <= i < publish.len() && publish[i].1@ == address ==> republished(publish, address),
        publish.len() == 0 ==> !republished(publish, address),
        republished(publish, address) ==> exists|k: int|
            0 <= k < publish.len() && (#[trigger] publish[k]).1@ == address,
{
}

} // verus!
