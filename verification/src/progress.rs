//! Turning a stream of `info` lines into completed depths. Lines are buffered
//! under the depth they belong to, one per MultiPV rank, and a depth is handed
//! over only once it is closed: the engine moved on to a deeper iteration, or
//! the search ended.

use vstd::prelude::*;
use crate::uci::{InfoLine, InfoView};

verus! {

/// One finished iteration of a search.
#[derive(Debug, Clone, PartialEq, Eq)]
pub struct CompletedDepth {
    pub depth: u8,
    /// One entry per MultiPV rank, ascending.
    pub infos: Vec<InfoLine>,
}

pub open spec fn info_views(v: Seq<InfoLine>) -> Seq<InfoView> {
    v.map_values(|i: InfoLine| i@)
}

/// Ranks strictly ascending.
pub open spec fn by_rank(s: Seq<InfoView>) -> bool {
    forall|i: int, j: int| 0 <= i < j < s.len() ==> #[trigger] s[i].multipv < #[trigger] s[j].multipv
}

/// `s` (ranks ascending) with `x` in place of the line of its rank, or
/// inserted where its rank belongs.
pub open spec fn upsert(s: Seq<InfoView>, x: InfoView) -> Seq<InfoView>
    decreases s.len(),
{
    if s.len() == 0 {
        seq![x]
    } else if s[0].multipv == x.multipv {
        seq![x] + s.drop_first()
    } else if s[0].multipv > x.multipv {
        seq![x] + s
    } else {
        seq![s[0]] + upsert(s.drop_first(), x)
    }
}

/// The state of a tracker: the depth being filled and its lines, one per
/// rank in rank order.
pub struct TrackerView {
    pub depth: Option<u8>,
    pub lines: Seq<InfoView>,
}

/// Buffers `info` lines by depth and closes a depth when the next one opens.
pub struct DepthTracker {
    depth: Option<u8>,
    lines: Vec<InfoLine>,
}

impl View for DepthTracker {
    type V = TrackerView;

    closed spec fn view(&self) -> TrackerView {
        TrackerView { depth: self.depth, lines: info_views(self.lines@) }
    }
}

/// What closing the state `v` hands over: its depth and lines, unless there
/// is no depth or no line.
pub open spec fn closing(v: TrackerView) -> Option<(u8, Seq<InfoView>)> {
    match v.depth {
        None => None,
        Some(d) => if v.lines.len() == 0 {
            None
        } else {
            Some((d, v.lines))
        },
    }
}

pub open spec fn completed_view(c: Option<CompletedDepth>) -> Option<(u8, Seq<InfoView>)> {
    match c {
        Some(x) => Some((x.depth, info_views(x.infos@))),
        None => None,
    }
}

/// The state after taking `info` into `v`.
pub open spec fn after_push(v: TrackerView, info: InfoView) -> TrackerView {
    match v.depth {
        Some(cur) => if info.depth < cur {
            v
        } else if info.depth == cur {
            TrackerView { depth: v.depth, lines: upsert(v.lines, info) }
        } else {
            TrackerView { depth: Some(info.depth), lines: seq![info] }
        },
        None => TrackerView { depth: Some(info.depth), lines: upsert(v.lines, info) },
    }
}

/// What taking `info` into `v` closes: the depth being filled, when `info`
/// belongs to a deeper one.
pub open spec fn closed_by_push(v: TrackerView, info: InfoView) -> Option<(u8, Seq<InfoView>)> {
    match v.depth {
        Some(cur) => if info.depth > cur {
            closing(v)
        } else {
            None
        },
        None => None,
    }
}

/// The state left by the end of a search.
pub open spec fn after_flush(v: TrackerView) -> TrackerView {
    match v.depth {
        None => v,
        Some(_) => TrackerView { depth: None, lines: seq![] },
    }
}

/// Put `info` in place of the line of its rank in `lines` (ranks
/// ascending), or insert it where its rank belongs.
pub fn upsert_info(lines: &mut Vec<InfoLine>, info: InfoLine)
    requires
        by_rank(info_views(old(lines)@)),
    ensures
        by_rank(info_views(final(lines)@)),
        info_views(final(lines)@) == upsert(info_views(old(lines)@), info@),
{
    let ghost s = info_views(lines@);
    assert(s.skip(0) =~= s);
    assert(s.subrange(0, 0) + upsert(s, info@) =~= upsert(s, info@));
    let mut p: usize = 0;
    while p < lines.len() && lines[p].multipv < info.multipv
        invariant
            p <= lines@.len(),
            s == info_views(lines@),
            by_rank(s),
            forall|k: int| 0 <= k < p ==> s[k].multipv < info.multipv,
            upsert(s, info@) == s.subrange(0, p as int) + upsert(s.skip(p as int), info@),
        decreases lines.len() - p,
    {
        let ghost rest = s.skip(p as int);
        assert(rest[0] == s[p as int]);
        assert(rest.drop_first() =~= s.skip(p as int + 1));
        assert(s.subrange(0, p as int + 1) =~= s.subrange(0, p as int).push(s[p as int]));
        assert(upsert(rest, info@) == seq![rest[0]] + upsert(rest.drop_first(), info@));
        assert(s.subrange(0, p as int) + upsert(rest, info@) =~= s.subrange(0, p as int + 1) + upsert(
            s.skip(p as int + 1),
            info@,
        ));
        p += 1;
    }
    let ghost x = info@;
    let ghost rest = s.skip(p as int);
    if p < lines.len() && lines[p].multipv == info.multipv {
        assert(rest[0] == s[p as int]);
        assert(upsert(rest, x) == seq![x] + rest.drop_first());
        lines.set(p, info);
        assert(info_views(lines@) =~= s.update(p as int, x));
        assert(s.subrange(0, p as int) + (seq![x] + rest.drop_first()) =~= s.update(p as int, x));
    } else {
        if p < lines.len() {
            assert(rest[0] == s[p as int]);
            assert(upsert(rest, x) == seq![x] + rest);
        } else {
            assert(rest.len() == 0);
        }
        lines.insert(p, info);
        assert(info_views(lines@) =~= s.insert(p as int, x));
        assert(s.subrange(0, p as int) + (seq![x] + rest) =~= s.insert(p as int, x));
    }
    assert(by_rank(info_views(lines@)));
}

impl DepthTracker {
    pub closed spec fn wf(&self) -> bool {
        by_rank(info_views(self.lines@)) && (self.depth is None ==> self.lines@.len() == 0)
    }

    pub fn new() -> (t: DepthTracker)
        ensures
            t.wf(),
            t@.depth is None,
            t@.lines == Seq::<InfoView>::empty(),
    {
        let t = DepthTracker { depth: None, lines: Vec::new() };
        assert(info_views(t.lines@) =~= Seq::<InfoView>::empty());
        t
    }

    /// Put `info` in place of the line of its rank, or where its rank belongs.
    fn upsert_line(&mut self, info: InfoLine)
        requires
            by_rank(info_views(old(self).lines@)),
        ensures
            by_rank(info_views(final(self).lines@)),
            info_views(final(self).lines@) == upsert(info_views(old(self).lines@), info@),
            final(self).depth == old(self).depth,
    {
        upsert_info(&mut self.lines, info);
    }

    /// Close the depth being filled: its lines, unless there are none.
    fn take(&mut self) -> (r: Option<CompletedDepth>)
        requires
            old(self).wf(),
        ensures
            completed_view(r) == closing(old(self)@),
            final(self).depth == old(self).depth,
            old(self).depth is Some ==> final(self).lines@.len() == 0,
            old(self).depth is None ==> final(self).lines@ == old(self).lines@,
    {
        let depth = match self.depth {
            Some(d) => d,
            None => {
                return None;
            },
        };
        let mut infos: Vec<InfoLine> = Vec::new();
        std::mem::swap(&mut infos, &mut self.lines);
        if infos.len() == 0 {
            return None;
        }
        Some(CompletedDepth { depth, infos })
    }

    /// Take one line. Returns the depth this line closed, never the one it
    /// belongs to. Shallower lines (stragglers after a deeper one) are
    /// dropped, and a rank reprinted at the same depth replaces the earlier
    /// line.
    pub fn push(&mut self, info: InfoLine) -> (r: Option<CompletedDepth>)
        requires
            old(self).wf(),
        ensures
            final(self).wf(),
            final(self)@ == after_push(old(self)@, info@),
            completed_view(r) == closed_by_push(old(self)@, info@),
    {
        match self.depth {
            Some(current) => {
                if info.depth < current {
                    None
                } else if info.depth == current {
                    self.upsert_line(info);
                    None
                } else {
                    let closed = self.take();
                    self.depth = Some(info.depth);
                    let ghost before = info_views(self.lines@);
                    self.upsert_line(info);
                    assert(before =~= Seq::<InfoView>::empty());
                    closed
                }
            },
            None => {
                self.depth = Some(info.depth);
                self.upsert_line(info);
                None
            },
        }
    }

    /// Close the depth still being filled, because the search has ended.
    pub fn flush(&mut self) -> (r: Option<CompletedDepth>)
        requires
            old(self).wf(),
        ensures
            final(self).wf(),
            final(self)@ == after_flush(old(self)@),
            completed_view(r) == closing(old(self)@),
    {
        let closed = self.take();
        self.depth = None;
        proof {
            if old(self).depth is None {
                assert(self.lines@.len() == 0);
            }
        }
        assert(info_views(self.lines@) =~= after_flush(old(self)@).lines);
        closed
    }
}

/// Depth reported to a caller never goes backwards: a push never lowers the
/// depth being filled, and what a push closes is shallower than the depth
/// that line opened.
pub proof fn lemma_push_monotone(v: TrackerView, info: InfoView)
    ensures
        v.depth matches Some(d) ==> (after_push(v, info).depth matches Some(e) && e >= d),
        closed_by_push(v, info) matches Some(c) ==> (after_push(v, info).depth matches Some(e) && c.0 < e),
{
}

/// A tracker with no depth holds no lines, and its lines are one per rank,
/// ranks ascending.
pub proof fn lemma_unset_depth_holds_no_lines(t: &DepthTracker)
    requires
        t.wf(),
    ensures
        t@.depth is None ==> t@.lines.len() == 0,
        by_rank(t@.lines),
{
}

/// Within an iteration the last line of a rank wins: after a line is taken,
/// the ranks are still ascending, the line is there, it is the only line of
/// its rank, and every line of another rank is kept.
pub proof fn lemma_upsert_replaces(s: Seq<InfoView>, x: InfoView)
    requires
        by_rank(s),
    ensures
        by_rank(upsert(s, x)),
        upsert(s, x).contains(x),
        forall|i: int| 0 <= i < upsert(s, x).len() && #[trigger] upsert(s, x)[i].multipv == x.multipv ==> upsert(s, x)[i] == x,
        forall|i: int| 0 <= i < s.len() && s[i].multipv != x.multipv ==> upsert(s, x).contains(#[trigger] s[i]),
    decreases s.len(),
{
    let u = upsert(s, x);
    if s.len() == 0 {
        assert(u[0] == x);
    } else if s[0].multipv == x.multipv {
        assert(u[0] == x);
        assert forall|i: int| 0 <= i < s.len() && s[i].multipv != x.multipv implies u.contains(#[trigger] s[i]) by {
            assert(i > 0);
            assert(u[i] == s[i]);
        }
    } else if s[0].multipv > x.multipv {
        assert(u[0] == x);
        assert forall|i: int| 0 <= i < s.len() && s[i].multipv != x.multipv implies u.contains(#[trigger] s[i]) by {
            assert(u[i + 1] == s[i]);
        }
        assert forall|i: int, j: int| 0 <= i < j < u.len() implies #[trigger] u[i].multipv < #[trigger] u[j].multipv by {
            if i > 0 {
                assert(u[i] == s[i - 1] && u[j] == s[j - 1]);
            } else {
                assert(u[j] == s[j - 1]);
                if j - 1 > 0 {
                    assert(s[0].multipv < s[j - 1].multipv);
                }
            }
        }
    } else {
        let t = s.drop_first();
        assert(by_rank(t)) by {
            assert forall|i: int, j: int| 0 <= i < j < t.len() implies #[trigger] t[i].multipv < #[trigger] t[j].multipv by {
                assert(t[i] == s[i + 1] && t[j] == s[j + 1]);
            }
        }
        lemma_upsert_replaces(t, x);
        let ut = upsert(t, x);
        assert(u == seq![s[0]] + ut);
        let k = choose|k: int| 0 <= k < ut.len() && ut[k] == x;
        assert(u[k + 1] == x);
        assert forall|i: int| 0 <= i < s.len() && s[i].multipv != x.multipv implies u.contains(#[trigger] s[i]) by {
            if i == 0 {
                assert(u[0] == s[0]);
            } else {
                assert(t[i - 1] == s[i]);
                assert(ut.contains(t[i - 1]));
                let q = choose|q: int| 0 <= q < ut.len() && ut[q] == t[i - 1];
                assert(u[q + 1] == s[i]);
            }
        }
        assert forall|i: int| 0 <= i < ut.len() implies #[trigger] ut[i].multipv > s[0].multipv by {
            if ut[i] != x {
                lemma_upsert_from(t, x, i);
            }
        }
        assert forall|i: int, j: int| 0 <= i < j < u.len() implies #[trigger] u[i].multipv < #[trigger] u[j].multipv by {
            if i > 0 {
                assert(u[i] == ut[i - 1] && u[j] == ut[j - 1]);
            } else {
                assert(u[j] == ut[j - 1]);
            }
        }
        assert forall|i: int| 0 <= i < u.len() && #[trigger] u[i].multipv == x.multipv implies u[i] == x by {
            if i > 0 {
                assert(u[i] == ut[i - 1]);
            }
        }
    }
}

/// Every line of `upsert(s, x)` other than `x` comes from `s`.
proof fn lemma_upsert_from(s: Seq<InfoView>, x: InfoView, i: int)
    requires
        0 <= i < upsert(s, x).len(),
        upsert(s, x)[i] != x,
    ensures
        s.contains(upsert(s, x)[i]),
    decreases s.len(),
{
    let u = upsert(s, x);
    if s.len() == 0 {
    } else if s[0].multipv == x.multipv {
        assert(u[i] == s[i]);
    } else if s[0].multipv > x.multipv {
        assert(u[i] == s[i - 1]);
    } else {
        if i == 0 {
            assert(u[0] == s[0]);
        } else {
            let t = s.drop_first();
            assert(u[i] == upsert(t, x)[i - 1]);
            lemma_upsert_from(t, x, i - 1);
            let q = choose|q: int| 0 <= q < t.len() && t[q] == u[i];
            assert(s[q + 1] == u[i]);
        }
    }
}

} // verus!
