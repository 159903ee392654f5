//! The concurrent-pipeline progress aggregator: per-source, per-stage
//! counters, the grouped point-in-time snapshot, and the text renderer
//! that draws one fixed-height box per provider group.
//!
//! The struct here is the single-writer model of the counters; the host
//! mirrors each `add_*` operation onto its shared atomic cells and feeds a
//! loaded snapshot back through [`Progress::new`]-shaped values to render.

use vstd::prelude::*;
use vstd::string::StringExecFns;
use vstd::string::StrSliceExecFns;
use crate::source::SourceKind;
use crate::source::SOURCE_COUNT;

verus! {

/// Width of a progress bar, in characters.
pub const BAR_WIDTH: usize = 28;

/// Outer width of a rendered box, in characters.
pub const BOX_WIDTH: usize = 66;

/// Total number of rendered lines: five per provider group.
pub const LINE_COUNT: usize = 10;

/// One `u64` counter per source kind.
#[derive(Clone, Copy, Debug, PartialEq, Eq, Structural)]
pub struct PerSource {
    pub provider_a: u64,
    pub provider_b_session: u64,
    pub provider_b_history: u64,
}

impl PerSource {
    /// The counter of one source kind.
    pub open spec fn spec_get(self, k: SourceKind) -> u64 {
        match k {
            SourceKind::ProviderA => self.provider_a,
            SourceKind::ProviderBSession => self.provider_b_session,
            SourceKind::ProviderBHistory => self.provider_b_history,
        }
    }

    /// The counters after a wrapping increment of one source kind.
    pub open spec fn spec_bump(self, k: SourceKind, n: u64) -> PerSource {
        match k {
            SourceKind::ProviderA => PerSource { provider_a: self.provider_a.wrapping_add(n), ..self },
            SourceKind::ProviderBSession => PerSource {
                provider_b_session: self.provider_b_session.wrapping_add(n),
                ..self
            },
            SourceKind::ProviderBHistory => PerSource {
                provider_b_history: self.provider_b_history.wrapping_add(n),
                ..self
            },
        }
    }

    /// The counters after a wrapping decrement of one source kind.
    pub open spec fn spec_lower(self, k: SourceKind, n: u64) -> PerSource {
        match k {
            SourceKind::ProviderA => PerSource { provider_a: self.provider_a.wrapping_sub(n), ..self },
            SourceKind::ProviderBSession => PerSource {
                provider_b_session: self.provider_b_session.wrapping_sub(n),
                ..self
            },
            SourceKind::ProviderBHistory => PerSource {
                provider_b_history: self.provider_b_history.wrapping_sub(n),
                ..self
            },
        }
    }

    /// All counters zero.
    pub fn zero() -> (r: PerSource)
        ensures
            r == (PerSource { provider_a: 0, provider_b_session: 0, provider_b_history: 0 }),
    {
        PerSource { provider_a: 0, provider_b_session: 0, provider_b_history: 0 }
    }

    /// Reads the counter of one source kind.
    pub fn get(&self, k: SourceKind) -> (r: u64)
        ensures
            r == self.spec_get(k),
    {
        match k {
            SourceKind::ProviderA => self.provider_a,
            SourceKind::ProviderBSession => self.provider_b_session,
            SourceKind::ProviderBHistory => self.provider_b_history,
        }
    }

    /// Wrapping increment of one source kind's counter.
    pub fn bump(&mut self, k: SourceKind, n: u64)
        ensures
            *final(self) == old(self).spec_bump(k, n),
    {
        match k {
            SourceKind::ProviderA => {
                self.provider_a = self.provider_a.wrapping_add(n);
            },
            SourceKind::ProviderBSession => {
                self.provider_b_session = self.provider_b_session.wrapping_add(n);
            },
            SourceKind::ProviderBHistory => {
                self.provider_b_history = self.provider_b_history.wrapping_add(n);
            },
        }
    }

    /// Wrapping decrement of one source kind's counter.
    pub fn lower(&mut self, k: SourceKind, n: u64)
        ensures
            *final(self) == old(self).spec_lower(k, n),
    {
        match k {
            SourceKind::ProviderA => {
                self.provider_a = self.provider_a.wrapping_sub(n);
            },
            SourceKind::ProviderBSession => {
                self.provider_b_session = self.provider_b_session.wrapping_sub(n);
            },
            SourceKind::ProviderBHistory => {
                self.provider_b_history = self.provider_b_history.wrapping_sub(n);
            },
        }
    }
}

/// The per-run progress state: byte and file totals fixed at start, the
/// per-stage counters, and the subsystem flags. Single writer by design;
/// the host funnels concurrent increments into one owner or mirrors them
/// in atomics.
pub struct Progress {
    pub totals_bytes: PerSource,
    pub parsed_bytes: PerSource,
    pub files_total: PerSource,
    pub files_done: PerSource,
    pub produced: PerSource,
    pub indexed: PerSource,
    pub embedded: PerSource,
    pub embed_pending: PerSource,
    pub embed_total: PerSource,
    pub embed_ready: bool,
    pub done: bool,
    pub embeddings: bool,
}

impl Progress {
    /// A fresh run: totals known up front, every stage counter zero, the
    /// embedding subsystem not yet ready, the run not done.
    pub fn new(totals_bytes: [u64; SOURCE_COUNT], files_total: [u64; SOURCE_COUNT],
        embeddings: bool) -> (r: Progress)
        ensures
            r.totals_bytes == (PerSource {
                provider_a: totals_bytes@[0],
                provider_b_session: totals_bytes@[1],
                provider_b_history: totals_bytes@[2],
            }),
            r.files_total == (PerSource {
                provider_a: files_total@[0],
                provider_b_session: files_total@[1],
                provider_b_history: files_total@[2],
            }),
            r.parsed_bytes == PerSource::spec_zero(),
            r.files_done == PerSource::spec_zero(),
            r.produced == PerSource::spec_zero(),
            r.indexed == PerSource::spec_zero(),
            r.embedded == PerSource::spec_zero(),
            r.embed_pending == PerSource::spec_zero(),
            r.embed_total == PerSource::spec_zero(),
            !r.embed_ready,
            !r.done,
            r.embeddings == embeddings,
    {
        Progress {
            totals_bytes: PerSource {
                provider_a: totals_bytes[0],
                provider_b_session: totals_bytes[1],
                provider_b_history: totals_bytes[2],
            },
            parsed_bytes: PerSource::zero(),
            files_total: PerSource {
                provider_a: files_total[0],
                provider_b_session: files_total[1],
                provider_b_history: files_total[2],
            },
            files_done: PerSource::zero(),
            produced: PerSource::zero(),
            indexed: PerSource::zero(),
            embedded: PerSource::zero(),
            embed_pending: PerSource::zero(),
            embed_total: PerSource::zero(),
            embed_ready: false,
            done: false,
            embeddings,
        }
    }

    /// Counts bytes consumed by a parser.
    pub fn add_parsed_bytes(&mut self, source: SourceKind, bytes: u64)
        ensures
            *final(self) == (Progress {
                parsed_bytes: old(self).parsed_bytes.spec_bump(source, bytes),
                ..*old(self)
            }),
    {
        self.parsed_bytes.bump(source, bytes);
    }

    /// Counts files fully parsed.
    pub fn add_files_done(&mut self, source: SourceKind, count: u64)
        ensures
            *final(self) == (Progress {
                files_done: old(self).files_done.spec_bump(source, count),
                ..*old(self)
            }),
    {
        self.files_done.bump(source, count);
    }

    /// Counts records produced by a parser.
    pub fn add_produced(&mut self, source: SourceKind, count: u64)
        ensures
            *final(self) == (Progress {
                produced: old(self).produced.spec_bump(source, count),
                ..*old(self)
            }),
    {
        self.produced.bump(source, count);
    }

    /// Counts records handed to the text index.
    pub fn add_indexed(&mut self, source: SourceKind, count: u64)
        ensures
            *final(self) == (Progress {
                indexed: old(self).indexed.spec_bump(source, count),
                ..*old(self)
            }),
    {
        self.indexed.bump(source, count);
    }

    /// Raises the known embedding total, once a source's count is known.
    pub fn add_embed_total(&mut self, source: SourceKind, count: u64)
        ensures
            *final(self) == (Progress {
                embed_total: old(self).embed_total.spec_bump(source, count),
                ..*old(self)
            }),
    {
        self.embed_total.bump(source, count);
    }

    /// Counts embeddings handed out and not yet returned.
    pub fn add_embed_pending(&mut self, source: SourceKind, count: u64)
        ensures
            *final(self) == (Progress {
                embed_pending: old(self).embed_pending.spec_bump(source, count),
                ..*old(self)
            }),
    {
        self.embed_pending.bump(source, count);
    }

    /// Counts embeddings returned, lowering the in-flight count.
    pub fn sub_embed_pending(&mut self, source: SourceKind, count: u64)
        ensures
            *final(self) == (Progress {
                embed_pending: old(self).embed_pending.spec_lower(source, count),
                ..*old(self)
            }),
    {
        self.embed_pending.lower(source, count);
    }

    /// Counts embeddings durably inserted.
    pub fn add_embedded(&mut self, source: SourceKind, count: u64)
        ensures
            *final(self) == (Progress {
                embedded: old(self).embedded.spec_bump(source, count),
                ..*old(self)
            }),
    {
        self.embedded.bump(source, count);
    }

    /// Marks the embedding subsystem warmed up.
    pub fn set_embed_ready(&mut self)
        ensures
            *final(self) == (Progress { embed_ready: true, ..*old(self) }),
    {
        self.embed_ready = true;
    }

    /// Marks the whole run complete; the renderer exits on seeing this.
    pub fn finish(&mut self)
        ensures
            *final(self) == (Progress { done: true, ..*old(self) }),
    {
        self.done = true;
    }
}

impl PerSource {
    /// All counters zero (spec form).
    pub open spec fn spec_zero() -> PerSource {
        PerSource { provider_a: 0, provider_b_session: 0, provider_b_history: 0 }
    }
}

/// Saturating sum, used only when two sub-kinds are combined for display.
pub open spec fn spec_sat_add(a: u64, b: u64) -> u64 {
    a.saturating_add(b)
}

fn sat_add(a: u64, b: u64) -> (r: u64)
    ensures
        r == spec_sat_add(a, b),
{
    a.saturating_add(b)
}

/// What the renderer shows of one provider group at one instant.
#[derive(Clone, Copy, Debug, PartialEq, Eq, Structural)]
pub struct SourceStats {
    pub parsed: u64,
    pub total: u64,
    pub files_done: u64,
    pub files_total: u64,
    pub produced: u64,
    pub indexed: u64,
    pub embedded: u64,
    pub embed_total: u64,
    pub pending: u64,
    pub embeddings_enabled: bool,
    pub embed_ready: bool,
}

/// A point-in-time reading of both displayed provider groups.
#[derive(Clone, Copy, Debug, PartialEq, Eq, Structural)]
pub struct Snapshot {
    pub provider_a: SourceStats,
    pub provider_b: SourceStats,
}

/// The first provider group: the one source kind shown alone.
pub open spec fn spec_provider_a_stats(p: Progress) -> SourceStats {
    SourceStats {
        parsed: p.parsed_bytes.provider_a,
        total: p.totals_bytes.provider_a,
        files_done: p.files_done.provider_a,
        files_total: p.files_total.provider_a,
        produced: p.produced.provider_a,
        indexed: p.indexed.provider_a,
        embedded: p.embedded.provider_a,
        embed_total: p.embed_total.provider_a,
        pending: p.embed_pending.provider_a,
        embeddings_enabled: p.embeddings,
        embed_ready: p.embed_ready,
    }
}

/// The second provider group: its two sub-kinds summed for display
/// (saturating, since the parts are free-running counters).
pub open spec fn spec_provider_b_stats(p: Progress) -> SourceStats {
    SourceStats {
        parsed: spec_sat_add(p.parsed_bytes.provider_b_session, p.parsed_bytes.provider_b_history),
        total: spec_sat_add(p.totals_bytes.provider_b_session, p.totals_bytes.provider_b_history),
        files_done: spec_sat_add(p.files_done.provider_b_session, p.files_done.provider_b_history),
        files_total: spec_sat_add(p.files_total.provider_b_session, p.files_total.provider_b_history),
        produced: spec_sat_add(p.produced.provider_b_session, p.produced.provider_b_history),
        indexed: spec_sat_add(p.indexed.provider_b_session, p.indexed.provider_b_history),
        embedded: spec_sat_add(p.embedded.provider_b_session, p.embedded.provider_b_history),
        embed_total: spec_sat_add(p.embed_total.provider_b_session, p.embed_total.provider_b_history),
        pending: spec_sat_add(p.embed_pending.provider_b_session, p.embed_pending.provider_b_history),
        embeddings_enabled: p.embeddings,
        embed_ready: p.embed_ready,
    }
}

/// Reads both displayed groups; the asymmetric grouping (one kind alone,
/// two kinds summed) is the display policy for this source-kind set.
pub fn snapshot(progress: &Progress) -> (r: Snapshot)
    ensures
        r.provider_a == spec_provider_a_stats(*progress),
        r.provider_b == spec_provider_b_stats(*progress),
{
    let provider_a = SourceStats {
        parsed: progress.parsed_bytes.provider_a,
        total: progress.totals_bytes.provider_a,
        files_done: progress.files_done.provider_a,
        files_total: progress.files_total.provider_a,
        produced: progress.produced.provider_a,
        indexed: progress.indexed.provider_a,
        embedded: progress.embedded.provider_a,
        embed_total: progress.embed_total.provider_a,
        pending: progress.embed_pending.provider_a,
        embeddings_enabled: progress.embeddings,
        embed_ready: progress.embed_ready,
    };
    let provider_b = SourceStats {
        parsed: sat_add(progress.parsed_bytes.provider_b_session, progress.parsed_bytes.provider_b_history),
        total: sat_add(progress.totals_bytes.provider_b_session, progress.totals_bytes.provider_b_history),
        files_done: sat_add(progress.files_done.provider_b_session, progress.files_done.provider_b_history),
        files_total: sat_add(
            progress.files_total.provider_b_session,
            progress.files_total.provider_b_history,
        ),
        produced: sat_add(progress.produced.provider_b_session, progress.produced.provider_b_history),
        indexed: sat_add(progress.indexed.provider_b_session, progress.indexed.provider_b_history),
        embedded: sat_add(progress.embedded.provider_b_session, progress.embedded.provider_b_history),
        embed_total: sat_add(
            progress.embed_total.provider_b_session,
            progress.embed_total.provider_b_history,
        ),
        pending: sat_add(
            progress.embed_pending.provider_b_session,
            progress.embed_pending.provider_b_history,
        ),
        embeddings_enabled: progress.embeddings,
        embed_ready: progress.embed_ready,
    };
    Snapshot { provider_a, provider_b }
}

/// The saturated percentage of `done` over `total`: a zero total reads as
/// 0%, and overshooting counters are clamped at 100, so the result never
/// leaves `0..=100`.
pub open spec fn spec_percent(done: u64, total: u64) -> int {
    if total == 0 {
        0
    } else if done >= total {
        100
    } else {
        (done * 100) / (total as int)
    }
}

/// Computes [`spec_percent`]; the result is always at most 100.
pub fn percent(done: u64, total: u64) -> (r: u64)
    ensures
        r == spec_percent(done, total),
        r <= 100,
{
    if total == 0 {
        0
    } else if done >= total {
        100
    } else {
        let t = ((done as u128) * 100) / (total as u128);
        proof {
            assert((done as int) * 100 / (total as int) < 100) by (nonlinear_arith)
                requires
                    0 < total,
                    done < total,
            ;
        }
        t as u64
    }
}

/// `n` copies of `s`, concatenated.
pub open spec fn repeat_seq(s: Seq<char>, n: nat) -> Seq<char>
    decreases n,
{
    if n == 0 {
        Seq::empty()
    } else {
        repeat_seq(s, (n - 1) as nat) + s
    }
}

fn repeat_lit(piece: &str, n: usize) -> (r: String)
    ensures
        r@ == repeat_seq(piece@, n as nat),
{
    let mut out = String::new();
    let mut i: usize = 0;
    while i < n
        invariant
            i <= n,
            out@ == repeat_seq(piece@, i as nat),
        decreases n - i,
    {
        out.append(piece);
        i = i + 1;
    }
    out
}

/// The single decimal digit `d` as text.
pub open spec fn spec_digit_str(d: u64) -> Seq<char> {
    if d == 0 {
        "0"@
    } else if d == 1 {
        "1"@
    } else if d == 2 {
        "2"@
    } else if d == 3 {
        "3"@
    } else if d == 4 {
        "4"@
    } else if d == 5 {
        "5"@
    } else if d == 6 {
        "6"@
    } else if d == 7 {
        "7"@
    } else if d == 8 {
        "8"@
    } else {
        "9"@
    }
}

fn digit_str(d: u64) -> (r: &'static str)
    requires
        d < 10,
    ensures
        r@ == spec_digit_str(d),
{
    match d {
        0 => "0",
        1 => "1",
        2 => "2",
        3 => "3",
        4 => "4",
        5 => "5",
        6 => "6",
        7 => "7",
        8 => "8",
        _ => "9",
    }
}

/// The usual decimal rendering of `v`, most significant digit first, no
/// leading zeros (except for `v == 0` itself).
pub open spec fn dec_str(v: u64) -> Seq<char>
    decreases v,
{
    if v < 10 {
        spec_digit_str(v)
    } else {
        dec_str(v / 10) + spec_digit_str(v % 10)
    }
}

proof fn lemma_digit_len(d: u64)
    requires
        d < 10,
    ensures
        spec_digit_str(d).len() == 1,
{
    reveal_strlit("0");
    reveal_strlit("1");
    reveal_strlit("2");
    reveal_strlit("3");
    reveal_strlit("4");
    reveal_strlit("5");
    reveal_strlit("6");
    reveal_strlit("7");
    reveal_strlit("8");
    reveal_strlit("9");
}

proof fn lemma_dec_str_len(v: u64)
    ensures
        dec_str(v).len() >= 1,
        v < 10 ==> dec_str(v).len() == 1,
        10 <= v < 100 ==> dec_str(v).len() == 2,
        100 <= v < 1000 ==> dec_str(v).len() == 3,
    decreases v,
{
    if v < 10 {
        lemma_digit_len(v);
    } else {
        lemma_dec_str_len(v / 10);
        lemma_digit_len(v % 10);
    }
}

/// Converts a count to its plain decimal rendering.
pub fn u64_to_dec(v: u64) -> (r: String)
    ensures
        r@ == dec_str(v),
    decreases v,
{
    if v < 10 {
        String::from_str(digit_str(v))
    } else {
        let mut s = u64_to_dec(v / 10);
        s.append(digit_str(v % 10));
        s
    }
}

/// Decimal text with a comma between each group of three digits, counted
/// from the right.
pub open spec fn commas(s: Seq<char>) -> Seq<char>
    decreases s.len(),
{
    if s.len() <= 3 {
        s
    } else {
        commas(s.take(s.len() - 3)) + ","@ + s.skip(s.len() - 3)
    }
}

/// The last three decimal digits of a value below 1000, zero-padded on
/// the left.
pub open spec fn pad3_chars(m: u64) -> Seq<char> {
    if m >= 100 {
        dec_str(m)
    } else if m >= 10 {
        "0"@ + dec_str(m)
    } else {
        "00"@ + dec_str(m)
    }
}

proof fn lemma_pad3_len(m: u64)
    requires
        m < 1000,
    ensures
        pad3_chars(m).len() == 3,
{
    lemma_dec_str_len(m);
    reveal_strlit("0");
    reveal_strlit("00");
}

fn pad3(m: u64) -> (r: String)
    requires
        m < 1000,
    ensures
        r@ == pad3_chars(m),
{
    if m >= 100 {
        u64_to_dec(m)
    } else if m >= 10 {
        let mut s = String::from_str("0");
        let t = u64_to_dec(m);
        s.append(t.as_str());
        s
    } else {
        let mut s = String::from_str("00");
        let t = u64_to_dec(m);
        s.append(t.as_str());
        s
    }
}

proof fn lemma_dec_split(v: u64)
    requires
        v >= 1000,
    ensures
        dec_str(v) == dec_str(v / 1000) + pad3_chars(v % 1000),
    decreases v,
{
    let m = v % 1000;
    assert(v / 10 / 10 == v / 100 && v / 100 / 10 == v / 1000) by (nonlinear_arith);
    assert(m % 10 == v % 10) by (nonlinear_arith)
        requires
            m == v % 1000,
    ;
    assert(m / 10 % 10 == v / 10 % 10) by (nonlinear_arith)
        requires
            m == v % 1000,
    ;
    assert(m / 100 == v / 100 % 10) by (nonlinear_arith)
        requires
            m == v % 1000,
    ;
    assert(m / 100 < 10 && (m < 100 ==> m / 10 < 10)) by (nonlinear_arith)
        requires
            m == v % 1000,
    ;
    assert(v / 10 >= 100 && v / 100 >= 10) by (nonlinear_arith)
        requires
            v >= 1000,
    ;
    assert(dec_str(v) == dec_str(v / 10) + spec_digit_str(v % 10));
    assert(dec_str(v / 10) == dec_str(v / 100) + spec_digit_str(v / 10 % 10));
    assert(dec_str(v / 100) == dec_str(v / 1000) + spec_digit_str(v / 100 % 10));
    if m >= 100 {
        assert(m / 10 >= 10);
        assert(dec_str(m) == dec_str(m / 10) + spec_digit_str(m % 10));
        assert(dec_str(m / 10) == dec_str(m / 10 / 10) + spec_digit_str(m / 10 % 10));
        assert(m / 10 / 10 == m / 100) by (nonlinear_arith);
        assert(m / 100 < 10);
        assert(dec_str(v) =~= dec_str(v / 1000) + pad3_chars(m));
    } else if m >= 10 {
        assert(v / 100 % 10 == 0);
        assert(dec_str(m) == dec_str(m / 10) + spec_digit_str(m % 10));
        assert(m / 10 < 10);
        assert(dec_str(v) =~= dec_str(v / 1000) + pad3_chars(m));
    } else {
        assert(v / 100 % 10 == 0 && v / 10 % 10 == 0);
        reveal_strlit("0");
        reveal_strlit("00");
        assert("00"@ =~= "0"@ + "0"@);
        assert(dec_str(v) =~= dec_str(v / 1000) + pad3_chars(m));
    }
}

/// Renders a count with thousands separators.
pub fn format_count_commas(value: u64) -> (r: String)
    ensures
        r@ == commas(dec_str(value)),
    decreases value,
{
    if value < 1000 {
        proof {
            lemma_dec_str_len(value);
        }
        u64_to_dec(value)
    } else {
        let mut s = format_count_commas(value / 1000);
        s.append(",");
        let t = pad3(value % 1000);
        s.append(t.as_str());
        proof {
            lemma_dec_split(value);
            lemma_pad3_len(value % 1000);
            lemma_dec_str_len(value / 1000);
            let d = dec_str(value);
            let hi = dec_str(value / 1000);
            assert(d.len() == hi.len() + 3);
            assert(d.take(d.len() - 3) =~= hi);
            assert(d.skip(d.len() - 3) =~= pad3_chars(value % 1000));
        }
        s
    }
}

/// How many of the bar's cells are filled at a given percentage.
pub open spec fn spec_filled(p: u64) -> int {
    let f = (p * (BAR_WIDTH as int)) / 100;
    if f <= BAR_WIDTH {
        f
    } else {
        BAR_WIDTH as int
    }
}

/// A determinate progress bar: filled cells, then empty cells.
pub open spec fn bar_chars(p: u64) -> Seq<char> {
    repeat_seq("━"@, spec_filled(p) as nat) + repeat_seq("░"@, (BAR_WIDTH - spec_filled(p)) as nat)
}

/// Draws a determinate progress bar.
pub fn bar(p: u64) -> (r: String)
    requires
        p <= 100,
    ensures
        r@ == bar_chars(p),
{
    let filled_raw = (p as usize) * BAR_WIDTH / 100;
    let filled = if filled_raw > BAR_WIDTH {
        BAR_WIDTH
    } else {
        filled_raw
    };
    let mut s = repeat_lit("━", filled);
    let t = repeat_lit("░", BAR_WIDTH - filled);
    s.append(t.as_str());
    s
}

/// The animated indeterminate bar: a six-cell block that slides across
/// the bar's width with the renderer's tick.
pub open spec fn indet_chars(tick: u64) -> Seq<char> {
    let offset = (tick % 23) as int;
    repeat_seq("░"@, offset as nat) + repeat_seq("━"@, 6) + repeat_seq(
        "░"@,
        (22 - offset) as nat,
    )
}

/// Draws the indeterminate bar for one renderer tick.
pub fn indeterminate_bar(tick: u64) -> (r: String)
    ensures
        r@ == indet_chars(tick),
{
    let block: usize = 6;
    let span = BAR_WIDTH - block;
    let offset = (tick % ((span + 1) as u64)) as usize;
    let mut s = repeat_lit("░", offset);
    let mid = repeat_lit("━", block);
    s.append(mid.as_str());
    let tail = repeat_lit("░", span - offset);
    s.append(tail.as_str());
    s
}

/// A percentage right-aligned in three cells.
pub open spec fn pct3_chars(p: u64) -> Seq<char> {
    if p < 10 {
        "  "@ + dec_str(p)
    } else if p < 100 {
        " "@ + dec_str(p)
    } else {
        dec_str(p)
    }
}

fn pct3(p: u64) -> (r: String)
    ensures
        r@ == pct3_chars(p),
{
    if p < 10 {
        let mut s = String::from_str("  ");
        let t = u64_to_dec(p);
        s.append(t.as_str());
        s
    } else if p < 100 {
        let mut s = String::from_str(" ");
        let t = u64_to_dec(p);
        s.append(t.as_str());
        s
    } else {
        u64_to_dec(p)
    }
}

/// Text clipped or space-padded on the right to exactly `width` cells.
pub open spec fn pad_chars(s: Seq<char>, width: nat) -> Seq<char> {
    if s.len() >= width {
        s.take(width as int)
    } else {
        s + repeat_seq(" "@, (width - s.len()) as nat)
    }
}

/// Clips or pads a rendered segment to a fixed display width.
pub fn pad(input: String, width: usize) -> (r: String)
    ensures
        r@ == pad_chars(input@, width as nat),
{
    let len = input.as_str().unicode_len();
    if len >= width {
        let clipped = input.as_str().substring_char(0, width);
        String::from_str(clipped)
    } else {
        let mut s = input;
        let fill = repeat_lit(" ", width - len);
        s.append(fill.as_str());
        s
    }
}

/// One kibibyte, mebibyte and gibibyte, the display scaling thresholds.
pub const KB: u64 = 1024;

/// See [`KB`].
pub const MB: u64 = 1024 * 1024;

/// See [`KB`].
pub const GB: u64 = 1024 * 1024 * 1024;

/// A byte count scaled by `unit` and rendered with one decimal place,
/// rounded down to tenths.
pub open spec fn scaled_chars(value: u64, unit: u64) -> Seq<char> {
    let t = (value as int) * 10 / (unit as int);
    dec_str((t / 10) as u64) + "."@ + spec_digit_str((t % 10) as u64)
}

fn scaled(value: u64, unit: u64) -> (r: String)
    requires
        unit >= 1024,
    ensures
        r@ == scaled_chars(value, unit),
{
    let t_wide = ((value as u128) * 10) / (unit as u128);
    proof {
        assert((value as int) * 10 / (unit as int) < 0x1_0000_0000_0000_0000) by (nonlinear_arith)
            requires
                unit >= 1024,
                value < 0x1_0000_0000_0000_0000,
        ;
        assert((value as int) * 10 / (unit as int) >= 0) by (nonlinear_arith)
            requires
                unit >= 1024,
                value >= 0,
        ;
    }
    let t = t_wide as u64;
    let mut s = u64_to_dec(t / 10);
    s.append(".");
    s.append(digit_str(t % 10));
    s
}

/// Which display unit a byte count falls in: 0 bytes, 1 KB, 2 MB, 3 GB.
pub open spec fn unit_of(value: u64) -> int {
    if value >= GB {
        3
    } else if value >= MB {
        2
    } else if value >= KB {
        1
    } else {
        0
    }
}

fn unit_class(value: u64) -> (r: usize)
    ensures
        r as int == unit_of(value),
{
    if value >= GB {
        3
    } else if value >= MB {
        2
    } else if value >= KB {
        1
    } else {
        0
    }
}

/// The numeric part of a human-readable byte count.
pub open spec fn bytes_parts_chars(value: u64) -> Seq<char> {
    if value >= GB {
        scaled_chars(value, GB)
    } else if value >= MB {
        scaled_chars(value, MB)
    } else if value >= KB {
        scaled_chars(value, KB)
    } else {
        dec_str(value)
    }
}

/// The unit suffix of a human-readable byte count.
pub open spec fn bytes_unit_chars(value: u64) -> Seq<char> {
    if value >= GB {
        "GB"@
    } else if value >= MB {
        "MB"@
    } else if value >= KB {
        "KB"@
    } else {
        "B"@
    }
}

/// Splits a byte count into its scaled numeric text and its unit suffix.
pub fn format_bytes_parts(value: u64) -> (r: (String, &'static str))
    ensures
        r.0@ == bytes_parts_chars(value),
        r.1@ == bytes_unit_chars(value),
{
    if value >= GB {
        (scaled(value, GB), "GB")
    } else if value >= MB {
        (scaled(value, MB), "MB")
    } else if value >= KB {
        (scaled(value, KB), "KB")
    } else {
        (u64_to_dec(value), "B")
    }
}

/// "done/total unit" text for a parse bar: a zero total reads "0 B"; a
/// finished stage shows the total alone; the done part repeats its unit
/// only when it differs from the total's.
pub open spec fn bytes_progress_chars(done: u64, total: u64) -> Seq<char> {
    if total == 0 {
        "0 B"@
    } else if done >= total {
        bytes_parts_chars(total) + " "@ + bytes_unit_chars(total)
    } else if unit_of(done) == unit_of(total) {
        bytes_parts_chars(done) + "/"@ + bytes_parts_chars(total) + " "@ + bytes_unit_chars(total)
    } else {
        bytes_parts_chars(done) + " "@ + bytes_unit_chars(done) + "/"@ + bytes_parts_chars(total)
            + " "@ + bytes_unit_chars(total)
    }
}

/// Renders the byte progress of a parse stage.
pub fn format_bytes_progress(done: u64, total: u64) -> (r: String)
    ensures
        r@ == bytes_progress_chars(done, total),
{
    if total == 0 {
        return String::from_str("0 B");
    }
    let (total_val, total_unit) = format_bytes_parts(total);
    if done >= total {
        let mut s = total_val;
        s.append(" ");
        s.append(total_unit);
        return s;
    }
    let (done_val, done_unit) = format_bytes_parts(done);
    if unit_class(done) == unit_class(total) {
        let mut s = done_val;
        s.append("/");
        s.append(total_val.as_str());
        s.append(" ");
        s.append(total_unit);
        s
    } else {
        let mut s = done_val;
        s.append(" ");
        s.append(done_unit);
        s.append("/");
        s.append(total_val.as_str());
        s.append(" ");
        s.append(total_unit);
        s
    }
}

/// The top border of a box, carrying the provider group's title.
pub open spec fn top_line_chars(title: Seq<char>) -> Seq<char> {
    let fill = ((BOX_WIDTH - 2) as usize).saturating_sub(
        (title.len() as usize).saturating_add(2),
    );
    "┌ "@ + title + " "@ + repeat_seq("─"@, fill as nat) + "┐"@
}

/// A content line framed by the box's vertical borders, clipped or padded
/// to the box's inner width.
pub open spec fn framed_chars(text: Seq<char>) -> Seq<char> {
    "│ "@ + pad_chars(text, (BOX_WIDTH - 4) as nat) + " │"@
}

/// The bottom border of a box.
pub open spec fn bottom_line_chars() -> Seq<char> {
    "└"@ + repeat_seq("─"@, (BOX_WIDTH - 2) as nat) + "┘"@
}

/// The parse line: bar, saturated percentage, byte progress, and a file
/// count suffix once file totals are known.
pub open spec fn parse_text_chars(stats: SourceStats) -> Seq<char> {
    let pct = spec_percent(stats.parsed, stats.total) as u64;
    let base = "parse  "@ + bar_chars(pct) + "  "@ + pct3_chars(pct) + "% "@
        + bytes_progress_chars(stats.parsed, stats.total);
    if stats.files_total > 0 {
        base + " f"@ + dec_str(stats.files_done) + "/"@ + dec_str(stats.files_total)
    } else {
        base
    }
}

/// Whether a stage bar has become determinate: parsing of the group is
/// complete and the stage's denominator is known. The transition is
/// one-way because parsed bytes and the denominator only grow.
pub open spec fn stage_known(stats: SourceStats, denominator: u64) -> bool {
    spec_percent(stats.parsed, stats.total) == 100 && denominator > 0
}

/// The index line: determinate over produced records once parsing is
/// done, else the animated bar; always the indexed record count.
pub open spec fn index_text_chars(stats: SourceStats, tick: u64) -> Seq<char> {
    let b = if stage_known(stats, stats.produced) {
        bar_chars(spec_percent(stats.indexed, stats.produced) as u64)
    } else {
        indet_chars(tick)
    };
    "index  "@ + b + "  "@ + commas(dec_str(stats.indexed)) + " rec"@
}

/// The embed line: determinate over the known embedding total once
/// parsing is done; a live in-flight suffix; an initializing or disabled
/// annotation.
pub open spec fn embed_text_chars(stats: SourceStats, tick: u64) -> Seq<char> {
    let b = if stage_known(stats, stats.embed_total) {
        bar_chars(spec_percent(stats.embedded, stats.embed_total) as u64)
    } else {
        indet_chars(tick.wrapping_add(7))
    };
    let base = "embed  "@ + b + "  "@ + commas(dec_str(stats.embedded)) + " emb"@;
    let with_pending = if stats.pending > 0 {
        base + " processing "@ + commas(dec_str(stats.pending))
    } else {
        base
    };
    let with_init = if stats.embeddings_enabled && !stats.embed_ready {
        with_pending + " init"@
    } else {
        with_pending
    };
    if !stats.embeddings_enabled {
        with_init + " (off)"@
    } else {
        with_init
    }
}

/// The five rendered lines of one provider group's box.
pub open spec fn box_lines(title: Seq<char>, stats: SourceStats, tick: u64) -> Seq<Seq<char>> {
    seq![
        top_line_chars(title),
        framed_chars(parse_text_chars(stats)),
        framed_chars(index_text_chars(stats, tick)),
        framed_chars(embed_text_chars(stats, tick)),
        bottom_line_chars(),
    ]
}

fn framed(text: String) -> (r: String)
    ensures
        r@ == framed_chars(text@),
{
    let mut s = String::from_str("│ ");
    let padded = pad(text, BOX_WIDTH - 4);
    s.append(padded.as_str());
    s.append(" │");
    s
}

/// Renders one provider group's fixed-height box.
pub fn render_box(title: &str, stats: &SourceStats, tick: u64) -> (r: Vec<String>)
    ensures
        r@.map_values(|s: String| s@) == box_lines(title@, *stats, tick),
{
    let inner = BOX_WIDTH - 2;
    let mut lines: Vec<String> = Vec::new();

    let mut top = String::from_str("┌ ");
    top.append(title);
    top.append(" ");
    let tlen = title.unicode_len();
    let fill = inner.saturating_sub(tlen.saturating_add(2));
    let dash = repeat_lit("─", fill);
    top.append(dash.as_str());
    top.append("┐");
    lines.push(top);

    let pct = percent(stats.parsed, stats.total);
    let mut ptext = String::from_str("parse  ");
    let pbar = bar(pct);
    ptext.append(pbar.as_str());
    ptext.append("  ");
    let p3 = pct3(pct);
    ptext.append(p3.as_str());
    ptext.append("% ");
    let bp = format_bytes_progress(stats.parsed, stats.total);
    ptext.append(bp.as_str());
    if stats.files_total > 0 {
        ptext.append(" f");
        let fd = u64_to_dec(stats.files_done);
        ptext.append(fd.as_str());
        ptext.append("/");
        let ft = u64_to_dec(stats.files_total);
        ptext.append(ft.as_str());
    }
    lines.push(framed(ptext));

    let index_known = pct == 100 && stats.produced > 0;
    let ibar = if index_known {
        bar(percent(stats.indexed, stats.produced))
    } else {
        indeterminate_bar(tick)
    };
    let mut itext = String::from_str("index  ");
    itext.append(ibar.as_str());
    itext.append("  ");
    let ic = format_count_commas(stats.indexed);
    itext.append(ic.as_str());
    itext.append(" rec");
    lines.push(framed(itext));

    let embed_known = pct == 100 && stats.embed_total > 0;
    let ebar = if embed_known {
        bar(percent(stats.embedded, stats.embed_total))
    } else {
        indeterminate_bar(tick.wrapping_add(7))
    };
    let mut etext = String::from_str("embed  ");
    etext.append(ebar.as_str());
    etext.append("  ");
    let ec = format_count_commas(stats.embedded);
    etext.append(ec.as_str());
    etext.append(" emb");
    if stats.pending > 0 {
        etext.append(" processing ");
        let pc = format_count_commas(stats.pending);
        etext.append(pc.as_str());
    }
    if stats.embeddings_enabled && !stats.embed_ready {
        etext.append(" init");
    }
    if !stats.embeddings_enabled {
        etext.append(" (off)");
    }
    lines.push(framed(etext));

    let mut bot = String::from_str("└");
    let d2 = repeat_lit("─", inner);
    bot.append(d2.as_str());
    bot.append("┘");
    lines.push(bot);

    proof {
        assert(lines@.map_values(|s: String| s@) =~= box_lines(title@, *stats, tick));
    }
    lines
}

/// Renders the whole display: one box per provider group, the single
/// source kind first, the grouped pair second.
pub fn format_lines(progress: &Progress, tick: u64) -> (r: Vec<String>)
    ensures
        r@.len() == LINE_COUNT,
        r@.map_values(|s: String| s@) == box_lines(
            "provider_a"@,
            spec_provider_a_stats(*progress),
            tick,
        ) + box_lines("provider-b"@, spec_provider_b_stats(*progress), tick),
{
    let stats = snapshot(progress);
    let mut lines = render_box("provider_a", &stats.provider_a, tick);
    let mut more = render_box("provider-b", &stats.provider_b, tick);
    lines.append(&mut more);
    proof {
        assert(lines@.map_values(|s: String| s@) =~= box_lines(
            "provider_a"@,
            spec_provider_a_stats(*progress),
            tick,
        ) + box_lines("provider-b"@, spec_provider_b_stats(*progress), tick));
    }
    lines
}

} // verus!
