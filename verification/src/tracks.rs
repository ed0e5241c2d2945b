//! Track patterns of a layer, and the tracks derived from them.

use vstd::prelude::*;
use crate::geom::Dir;
use crate::raw::{DataTypeMap, LayerSpec};

verus! {

/// What a stretch of a layer's period holds.
#[derive(Debug, Clone, Copy, PartialEq, Eq, Structural)]
pub enum TrackType {
    /// Nothing.
    Gap,
    /// A track for signals.
    Signal,
    /// A track for power or ground.
    Rail,
}

/// One stretch of a layer's period: its width and what it holds.
#[derive(Debug, Clone, Copy, PartialEq, Eq, Structural)]
pub struct TrackEntry {
    pub width: usize,
    pub ttype: TrackType,
}

impl TrackEntry {
    /// A gap of the given width.
    pub fn gap(width: usize) -> (r: TrackEntry)
        ensures
            r == (TrackEntry { width, ttype: TrackType::Gap }),
    {
        TrackEntry { width, ttype: TrackType::Gap }
    }

    /// A signal track of the given width.
    pub fn sig(width: usize) -> (r: TrackEntry)
        ensures
            r == (TrackEntry { width, ttype: TrackType::Signal }),
    {
        TrackEntry { width, ttype: TrackType::Signal }
    }
}

/// A run of entries that is repeated `nrep` times.
#[derive(Debug, Clone, Default, PartialEq)]
pub struct Pattern {
    pub entries: Vec<TrackEntry>,
    pub nrep: usize,
}

impl Pattern {
    /// The entries `e` repeated `nrep` times.
    pub fn new(e: Vec<TrackEntry>, nrep: usize) -> (r: Pattern)
        ensures
            r.entries == e,
            r.nrep == nrep,
    {
        Pattern { entries: e, nrep }
    }
}

/// One item of a layer's period: a single entry or a repeated pattern.
#[derive(Debug, Clone, PartialEq)]
pub enum TrackSpec {
    Entry(TrackEntry),
    Pat(Pattern),
}

impl TrackSpec {
    /// A gap of the given width.
    pub fn gap(width: usize) -> (r: TrackSpec)
        ensures
            r == TrackSpec::Entry(TrackEntry { width, ttype: TrackType::Gap }),
    {
        TrackSpec::Entry(TrackEntry { width, ttype: TrackType::Gap })
    }

    /// A signal track of the given width.
    pub fn sig(width: usize) -> (r: TrackSpec)
        ensures
            r == TrackSpec::Entry(TrackEntry { width, ttype: TrackType::Signal }),
    {
        TrackSpec::Entry(TrackEntry { width, ttype: TrackType::Signal })
    }

    /// A rail of the given width.
    pub fn rail(width: usize) -> (r: TrackSpec)
        ensures
            r == TrackSpec::Entry(TrackEntry { width, ttype: TrackType::Rail }),
    {
        TrackSpec::Entry(TrackEntry { width, ttype: TrackType::Rail })
    }

    /// The entries `e` repeated `nrep` times.
    pub fn pat(e: Vec<TrackEntry>, nrep: usize) -> (r: TrackSpec)
        ensures
            r matches TrackSpec::Pat(p) && p.entries == e && p.nrep == nrep,
    {
        TrackSpec::Pat(Pattern::new(e, nrep))
    }

    /// The entries that this item stands for.
    pub open spec fn flat(&self) -> Seq<TrackEntry> {
        match self {
            TrackSpec::Entry(e) => seq![*e],
            TrackSpec::Pat(p) => repeat(p.entries@, p.nrep as nat),
        }
    }
}

/// `s` written `n` times in a row.
pub open spec fn repeat(s: Seq<TrackEntry>, n: nat) -> Seq<TrackEntry>
    decreases n,
{
    if n == 0 {
        Seq::empty()
    } else {
        repeat(s, (n - 1) as nat) + s
    }
}

/// The entries that the items `specs` stand for, in order.
pub open spec fn flatten(specs: Seq<TrackSpec>) -> Seq<TrackEntry>
    decreases specs.len(),
{
    if specs.len() == 0 {
        Seq::empty()
    } else {
        flatten(specs.drop_last()) + specs.last().flat()
    }
}

/// The sum of the widths of `entries`.
pub open spec fn total_width(entries: Seq<TrackEntry>) -> int
    decreases entries.len(),
{
    if entries.len() == 0 {
        0
    } else {
        total_width(entries.drop_last()) + entries.last().width
    }
}

/// The number of entries of type `tt` among `entries`.
pub open spec fn count_type(entries: Seq<TrackEntry>, tt: TrackType) -> int
    decreases entries.len(),
{
    if entries.len() == 0 {
        0
    } else {
        count_type(entries.drop_last(), tt) + if entries.last().ttype == tt {
            1int
        } else {
            0int
        }
    }
}

/// A metal layer. It runs without end along `dir` and repeats its period of
/// tracks across it.
#[derive(Debug, Clone)]
pub struct Layer {
    /// Layer index.
    pub index: usize,
    /// Layer name.
    pub name: String,
    /// Direction of the tracks.
    pub dir: Dir,
    /// Default size of cuts in a wire.
    pub cutsize: usize,
    /// The period: track sizes and types.
    pub entries: Vec<TrackSpec>,
    /// Where the first entry of the period starts.
    pub offset: isize,
    /// Layer numbers for stream export.
    pub stream_layer: Option<LayerSpec>,
    /// Layer and datatypes for raw layout.
    pub raw: Option<DataTypeMap>,
}

impl Layer {
    /// The period of the layer, entry by entry, with every pattern
    /// written out.
    pub open spec fn spec_flat_entries(&self) -> Seq<TrackEntry> {
        flatten(self.entries@)
    }

    /// The length of the period: the sum of the widths of all its entries.
    pub open spec fn spec_pitch(&self) -> int {
        total_width(self.spec_flat_entries())
    }

    /// The number of signal tracks in one period.
    pub open spec fn spec_num_signal_tracks(&self) -> int {
        count_type(self.spec_flat_entries(), TrackType::Signal)
    }

    /// Where the period ends.
    pub open spec fn span_end(&self) -> int {
        self.offset + self.spec_pitch()
    }

    /// True when every position within the period is representable.
    pub open spec fn spec_in_range(&self) -> bool {
        self.span_end() <= isize::MAX
    }

    /// The period of the layer, entry by entry: single entries as they are,
    /// each pattern written out `nrep` times.
    pub fn flat_entries(&self) -> (v: Vec<TrackEntry>)
        ensures
            v@ == self.spec_flat_entries(),
    {
        let mut v: Vec<TrackEntry> = Vec::new();
        let n = self.entries.len();
        let mut i: usize = 0;
        while i < n
            invariant
                i <= n,
                n == self.entries@.len(),
                v@ == flatten(self.entries@.take(i as int)),
            decreases n - i,
        {
            let ghost base = v@;
            match &self.entries[i] {
                TrackSpec::Entry(ee) => {
                    v.push(*ee);
                    assert(v@ =~= base + seq![*ee]);
                },
                TrackSpec::Pat(p) => {
                    let m = p.entries.len();
                    let mut r: usize = 0;
                    while r < p.nrep
                        invariant
                            r <= p.nrep,
                            m == p.entries@.len(),
                            v@ == base + repeat(p.entries@, r as nat),
                        decreases p.nrep - r,
                    {
                        let ghost round = v@;
                        let mut j: usize = 0;
                        while j < m
                            invariant
                                j <= m,
                                m == p.entries@.len(),
                                v@ == round + p.entries@.take(j as int),
                            decreases m - j,
                        {
                            v.push(p.entries[j]);
                            assert(v@ =~= round + p.entries@.take(j + 1));
                            j += 1;
                        }
                        assert(p.entries@.take(m as int) =~= p.entries@);
                        assert(v@ =~= base + repeat(p.entries@, (r + 1) as nat));
                        r += 1;
                    }
                },
            }
            proof {
                let next = self.entries@.take(i + 1);
                assert(next.drop_last() =~= self.entries@.take(i as int));
                assert(next.last() == self.entries@[i as int]);
            }
            i += 1;
        }
        assert(self.entries@.take(n as int) =~= self.entries@);
        v
    }

    /// The length of the period, or `None` where it is not representable.
    pub fn checked_pitch(&self) -> (r: Option<usize>)
        ensures
            r is Some <==> self.spec_pitch() <= usize::MAX,
            r matches Some(p) ==> p == self.spec_pitch(),
    {
        let flat = self.flat_entries();
        sum_widths(&flat)
    }

    /// The length of the period: the sum of the widths of all its entries.
    pub fn pitch(&self) -> (r: usize)
        requires
            self.spec_pitch() <= usize::MAX,
        ensures
            r == self.spec_pitch(),
    {
        self.checked_pitch().unwrap()
    }

    /// The number of signal tracks in one period.
    pub fn num_signal_tracks(&self) -> (r: usize)
        ensures
            r == self.spec_num_signal_tracks(),
    {
        let flat = self.flat_entries();
        let n = flat.len();
        let mut count: usize = 0;
        let mut i: usize = 0;
        while i < n
            invariant
                i <= n,
                n == flat@.len(),
                count == count_type(flat@.take(i as int), TrackType::Signal),
                count <= i,
            decreases n - i,
        {
            proof {
                let next = flat@.take(i + 1);
                assert(next.drop_last() =~= flat@.take(i as int));
            }
            match flat[i].ttype {
                TrackType::Signal => {
                    count += 1;
                },
                _ => {},
            }
            i += 1;
        }
        assert(flat@.take(n as int) =~= flat@);
        count
    }

    /// Whether every position within the period is representable.
    pub fn in_range(&self) -> (r: bool)
        ensures
            r == self.spec_in_range(),
    {
        match self.checked_pitch() {
            None => {
                false
            },
            Some(p) => self.offset.checked_add_unsigned(p).is_some(),
        }
    }
}

/// The sum of the widths of `flat`, or `None` where it is not representable.
fn sum_widths(flat: &Vec<TrackEntry>) -> (r: Option<usize>)
    ensures
        r is Some <==> total_width(flat@) <= usize::MAX,
        r matches Some(s) ==> s == total_width(flat@),
{
    let n = flat.len();
    let mut sum: usize = 0;
    let mut i: usize = 0;
    while i < n
        invariant
            i <= n,
            n == flat@.len(),
            sum == total_width(flat@.take(i as int)),
        decreases n - i,
    {
        proof {
            let next = flat@.take(i + 1);
            assert(next.drop_last() =~= flat@.take(i as int));
            lemma_width_take(flat@, i + 1);
        }
        match sum.checked_add(flat[i].width) {
            Some(s) => {
                sum = s;
            },
            None => {
                return None;
            },
        }
        i += 1;
    }
    assert(flat@.take(n as int) =~= flat@);
    Some(sum)
}

/// The widths of the first `k` entries sum to no more than all widths do.
pub proof fn lemma_width_take(s: Seq<TrackEntry>, k: int)
    requires
        0 <= k <= s.len(),
    ensures
        0 <= total_width(s.take(k)) <= total_width(s),
    decreases s.len(),
{
    if k == s.len() {
        assert(s.take(k) =~= s);
        if s.len() > 0 {
            lemma_width_take(s.drop_last(), k - 1);
            assert(s.drop_last().take(k - 1) =~= s.drop_last());
        }
    } else {
        lemma_width_take(s.drop_last(), k);
        assert(s.drop_last().take(k) =~= s.take(k));
    }
}

/// Widths add up over concatenation.
pub proof fn lemma_width_concat(a: Seq<TrackEntry>, b: Seq<TrackEntry>)
    ensures
        total_width(a + b) == total_width(a) + total_width(b),
    decreases b.len(),
{
    if b.len() == 0 {
        assert(a + b =~= a);
    } else {
        lemma_width_concat(a, b.drop_last());
        assert((a + b).drop_last() =~= a + b.drop_last());
    }
}

/// A pattern written out `n` times holds `n` copies of its entries: it is
/// `n` times as long, its entry of index `i` is the pattern's entry of index
/// `i` modulo the pattern's length, and its width is `n` times the
/// pattern's width.
pub proof fn lemma_repeat(s: Seq<TrackEntry>, n: nat)
    ensures
        repeat(s, n).len() == n * s.len(),
        forall|i: int| 0 <= i < n * s.len() ==> #[trigger] repeat(s, n)[i] == s[i % (s.len() as int)],
        total_width(repeat(s, n)) == n * total_width(s),
    decreases n,
{
    if n == 0 {
        assert(0 * s.len() == 0);
        assert(0 * total_width(s) == 0);
    } else {
        let m = (n - 1) as nat;
        lemma_repeat(s, m);
        lemma_width_concat(repeat(s, m), s);
        let len = s.len() as int;
        assert(n * len == m * len + len) by (nonlinear_arith)
            requires
                n == m + 1,
        ;
        assert(n * total_width(s) == m * total_width(s) + total_width(s)) by (nonlinear_arith)
            requires
                n == m + 1,
        ;
        assert forall|i: int| 0 <= i < n * s.len() implies #[trigger] repeat(s, n)[i] == s[i % len] by {
            if i >= m * len {
                let j = i - m * len;
                assert(0 <= j < len);
                assert(i % len == j) by {
                    vstd::arithmetic::div_mod::lemma_fundamental_div_mod_converse(i, len, m as int, j);
                }
            }
        }
    }
}

/// The entries of a layer's period are those of its items one after the
/// other, so the pitch does not depend on how entries are grouped into
/// patterns: it is the sum over the items, a pattern counting `nrep` times
/// the width of its entries.
pub open spec fn grouped_width(specs: Seq<TrackSpec>) -> int
    decreases specs.len(),
{
    if specs.len() == 0 {
        0
    } else {
        grouped_width(specs.drop_last()) + match specs.last() {
            TrackSpec::Entry(e) => e.width as int,
            TrackSpec::Pat(p) => p.nrep * total_width(p.entries@),
        }
    }
}

/// The width of the flattened period equals the width counted item by
/// item.
pub proof fn lemma_pitch_grouping(specs: Seq<TrackSpec>)
    ensures
        total_width(flatten(specs)) == grouped_width(specs),
    decreases specs.len(),
{
    if specs.len() > 0 {
        lemma_pitch_grouping(specs.drop_last());
        lemma_width_concat(flatten(specs.drop_last()), specs.last().flat());
        match specs.last() {
            TrackSpec::Entry(e) => {
                let one = seq![e];
                assert(one.drop_last() =~= Seq::<TrackEntry>::empty());
                assert(total_width(one.drop_last()) == 0);
                assert(one.last() == e);
                assert(total_width(one) == e.width);
                assert(specs.last().flat() == one);
            },
            TrackSpec::Pat(p) => {
                lemma_repeat(p.entries@, p.nrep as nat);
            },
        }
    }
}

} // verus!
