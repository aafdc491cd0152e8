use vstd::prelude::*;

use crate::decode::{decoded_as, message_ok};
use crate::messages::MessageEnum;
use crate::text::split_spec;
use crate::timestamp::Timestamp;

verus! {

/// Relies on `str::split`: the pieces of `s` between line breaks, in order, as
/// `split_spec` describes them.
#[verifier::external_body]
fn split_lines(s: &str) -> (r: Vec<String>)
    ensures
        r@.len() == split_spec(s@, '\n').len(),
        forall|k: int| 0 <= k < r@.len() ==> #[trigger] r@[k]@ == split_spec(s@, '\n')[k],
{
    let mut r = Vec::new();
    for line in s.split('\n') {
        r.push(line.to_string());
    }
    r
}

/// Batches strictly increase in timestamp, and every message of a batch carries the
/// batch's timestamp.
pub open spec fn batches_wf(b: Seq<(Timestamp, Vec<MessageEnum>)>) -> bool {
    &&& forall|i: int, j: int|
        0 <= i < j < b.len() ==> (#[trigger] b[i]).0.spec_before((#[trigger] b[j]).0)
    &&& forall|i: int, j: int|
        0 <= i < b.len() && 0 <= j < b[i].1@.len() ==> (#[trigger] b[i].1@[j]).spec_timestamp()
            == b[i].0
    &&& forall|i: int| 0 <= i < b.len() ==> (#[trigger] b[i]).1@.len() > 0
}

/// The records of `s` with timestamp `t`, in order.
pub open spec fn with_ts(s: Seq<MessageEnum>, t: Timestamp) -> Seq<MessageEnum>
    decreases s.len(),
{
    if s.len() == 0 {
        Seq::empty()
    } else {
        let r = with_ts(s.drop_last(), t);
        if s.last().spec_timestamp() == t {
            r.push(s.last())
        } else {
            r
        }
    }
}

/// The records of the batch of timestamp `t` in `b`; none when there is no such batch.
pub open spec fn batch_of(b: Seq<(Timestamp, Vec<MessageEnum>)>, t: Timestamp) -> Seq<MessageEnum>
    decreases b.len(),
{
    if b.len() == 0 {
        Seq::empty()
    } else if b.last().0 == t {
        b.last().1@
    } else {
        batch_of(b.drop_last(), t)
    }
}

/// The records of timestamp `t` held in the batches `b` and the pending records `p`.
pub open spec fn collected(
    b: Seq<(Timestamp, Vec<MessageEnum>)>,
    p: Seq<MessageEnum>,
    t: Timestamp,
) -> Seq<MessageEnum> {
    batch_of(b, t) + if p.len() > 0 && p[0].spec_timestamp() == t {
        p
    } else {
        Seq::empty()
    }
}

proof fn lemma_batches_drop_last(b: Seq<(Timestamp, Vec<MessageEnum>)>)
    requires
        batches_wf(b),
        b.len() > 0,
    ensures
        batches_wf(b.drop_last()),
{
    let d = b.drop_last();
    assert forall|i: int, j: int| 0 <= i < j < d.len() implies (#[trigger] d[i]).0.spec_before(
        (#[trigger] d[j]).0,
    ) by {
        assert(d[i] == b[i] && d[j] == b[j]);
    }
    assert forall|i: int, j: int|
        0 <= i < d.len() && 0 <= j < d[i].1@.len() implies (#[trigger] d[i].1@[j]).spec_timestamp()
        == d[i].0 by {
        assert(d[i] == b[i]);
    }
    assert forall|i: int| 0 <= i < d.len() implies (#[trigger] d[i]).1@.len() > 0 by {
        assert(d[i] == b[i]);
    }
}

/// The batch of timestamp `t` is the one keyed `t`.
proof fn lemma_batch_of_at(b: Seq<(Timestamp, Vec<MessageEnum>)>, t: Timestamp, k: int)
    requires
        batches_wf(b),
        0 <= k < b.len(),
        b[k].0 == t,
    ensures
        batch_of(b, t) == b[k].1@,
    decreases b.len(),
{
    if k < b.len() - 1 {
        assert(b[k].0.spec_before(b[b.len() - 1].0));
        lemma_batches_drop_last(b);
        assert(b.drop_last()[k] == b[k]);
        lemma_batch_of_at(b.drop_last(), t, k);
    }
}

/// No batch is keyed `t`: there are no records of `t`.
proof fn lemma_batch_of_absent(b: Seq<(Timestamp, Vec<MessageEnum>)>, t: Timestamp)
    requires
        forall|k: int| 0 <= k < b.len() ==> (#[trigger] b[k]).0 != t,
    ensures
        batch_of(b, t) == Seq::<MessageEnum>::empty(),
    decreases b.len(),
{
    if b.len() > 0 {
        let d = b.drop_last();
        assert forall|k: int| 0 <= k < d.len() implies (#[trigger] d[k]).0 != t by {
            assert(d[k] == b[k]);
        }
        assert(b[b.len() - 1].0 != t);
        lemma_batch_of_absent(d, t);
    }
}

/// The batches `b` hold the records `d`: each batch the records of its timestamp, in order.
pub open spec fn batches_hold(b: Seq<(Timestamp, Vec<MessageEnum>)>, d: Seq<MessageEnum>) -> bool {
    forall|t: Timestamp| #[trigger] batch_of(b, t) == with_ts(d, t)
}

/// The lines `lines` were read, in order, into the records `d`, one for each line that
/// decodes, and the unknown lines `u`, one for each line that does not.
pub open spec fn read_lines(lines: Seq<Seq<char>>, d: Seq<MessageEnum>, u: Seq<String>) -> bool
    decreases lines.len(),
{
    if lines.len() == 0 {
        d.len() == 0 && u.len() == 0
    } else if message_ok(lines.last()) {
        &&& d.len() > 0
        &&& decoded_as(d.last(), lines.last())
        &&& read_lines(lines.drop_last(), d.drop_last(), u)
    } else {
        &&& u.len() > 0
        &&& u.last()@ == lines.last()
        &&& read_lines(lines.drop_last(), d, u.drop_last())
    }
}

/// The decoded records, grouped into batches by timestamp in increasing order, and the
/// lines that did not decode.
pub struct JPXMBOParseResult {
    pub itch: Vec<(Timestamp, Vec<MessageEnum>)>,
    pub unknown: Vec<String>,
}

/// Groups decoded records into batches of one timestamp as they arrive. Records of a
/// timestamp that arrive late join the batch of their timestamp.
pub struct JPXMBOParser {
    temp: Vec<MessageEnum>,
    itch: Vec<(Timestamp, Vec<MessageEnum>)>,
    unknown: Vec<String>,
    arrived: Ghost<Seq<MessageEnum>>,
}

impl JPXMBOParser {
    /// The batches finished so far.
    pub closed spec fn batches(&self) -> Seq<(Timestamp, Vec<MessageEnum>)> {
        self.itch@
    }

    /// The batch being filled.
    pub closed spec fn pending(&self) -> Seq<MessageEnum> {
        self.temp@
    }

    /// The lines that did not decode.
    pub closed spec fn unknown_lines(&self) -> Seq<String> {
        self.unknown@
    }

    /// The records decoded so far, in arrival order.
    pub closed spec fn decoded(&self) -> Seq<MessageEnum> {
        self.arrived@
    }

    /// The batches are well formed and the pending records share one timestamp.
    pub closed spec fn wf(&self) -> bool {
        &&& batches_wf(self.itch@)
        &&& forall|j: int|
            0 <= j < self.temp@.len() ==> (#[trigger] self.temp@[j]).spec_timestamp()
                == self.temp@[0].spec_timestamp()
        &&& forall|t: Timestamp| #[trigger]
            collected(self.itch@, self.temp@, t) == with_ts(self.arrived@, t)
    }

    pub fn new() -> (r: JPXMBOParser)
        ensures
            r.wf(),
            r.batches().len() == 0,
            r.pending().len() == 0,
            r.unknown_lines().len() == 0,
            r.decoded().len() == 0,
    {
        let r = JPXMBOParser {
            temp: Vec::new(),
            itch: Vec::new(),
            unknown: Vec::new(),
            arrived: Ghost(Seq::empty()),
        };
        assert forall|t: Timestamp| #[trigger]
            collected(r.itch@, r.temp@, t) == with_ts(r.arrived@, t) by {
            assert(collected(r.itch@, r.temp@, t) =~= Seq::<MessageEnum>::empty());
        }
        r
    }

    /// Decodes and batches every line of `file`.
    pub fn from_string(file: String) -> (r: JPXMBOParser)
        ensures
            r.wf(),
            r.decoded().len() + r.unknown_lines().len() == split_spec(file@, '\n').len(),
            read_lines(split_spec(file@, '\n'), r.decoded(), r.unknown_lines()),
    {
        let mut parser = JPXMBOParser::new();
        let lines = split_lines(file.as_str());
        let ghost ls = split_spec(file@, '\n');
        let mut i: usize = 0;
        assert(ls.subrange(0, 0) =~= Seq::<Seq<char>>::empty());
        while i < lines.len()
            invariant
                parser.wf(),
                i <= lines@.len(),
                ls == split_spec(file@, '\n'),
                lines@.len() == ls.len(),
                forall|k: int| 0 <= k < lines@.len() ==> #[trigger] lines@[k]@ == ls[k],
                parser.decoded().len() + parser.unknown_lines().len() == i,
                read_lines(ls.subrange(0, i as int), parser.decoded(), parser.unknown_lines()),
            decreases lines@.len() - i,
        {
            let line = lines[i].clone();
            assert(line@ == ls[i as int]);
            let ghost d0 = parser.decoded();
            let ghost u0 = parser.unknown_lines();
            parser.parse_line(line);
            proof {
                let p1 = ls.subrange(0, i + 1);
                assert(p1.drop_last() =~= ls.subrange(0, i as int));
                assert(p1.last() == ls[i as int]);
                if message_ok(ls[i as int]) {
                    assert(parser.unknown_lines() == u0);
                } else {
                    assert(parser.decoded() == d0);
                    assert(parser.unknown_lines().drop_last() =~= u0);
                }
            }
            i = i + 1;
        }
        assert(ls.subrange(0, i as int) =~= ls);
        parser
    }

    /// Where a batch of timestamp `t` is or would go.
    fn position(&self, t: &Timestamp) -> (k: usize)
        requires
            batches_wf(self.batches()),
        ensures
            k <= self.batches().len(),
            forall|i: int| 0 <= i < k ==> (#[trigger] self.batches()[i]).0.spec_before(*t),
            forall|i: int|
                k <= i < self.batches().len() ==> !(#[trigger] self.batches()[i]).0.spec_before(
                    *t,
                ),
    {
        let ghost b = self.batches();
        let mut lo: usize = 0;
        let mut hi: usize = self.itch.len();
        while lo < hi
            invariant
                b == self.batches(),
                batches_wf(b),
                lo <= hi <= b.len(),
                forall|i: int| 0 <= i < lo ==> (#[trigger] b[i]).0.spec_before(*t),
                forall|i: int| hi <= i < b.len() ==> !(#[trigger] b[i]).0.spec_before(*t),
            decreases hi - lo,
        {
            let mid = lo + (hi - lo) / 2;
            if self.itch[mid].0.is_before(t) {
                assert forall|i: int| 0 <= i < mid + 1 implies (#[trigger] b[i]).0.spec_before(
                    *t,
                ) by {
                    if i < mid {
                        assert(b[i].0.spec_before(b[mid as int].0));
                    }
                }
                lo = mid + 1;
            } else {
                assert forall|i: int| mid <= i < b.len() implies !(#[trigger] b[i]).0.spec_before(
                    *t,
                ) by {
                    if i > mid {
                        assert(b[mid as int].0.spec_before(b[i].0));
                    }
                }
                hi = mid;
            }
        }
        lo
    }

    /// Moves the pending records into the batch of their timestamp, which is created
    /// when there is none.
    fn insert_temp(&mut self)
        requires
            old(self).wf(),
        ensures
            final(self).wf(),
            final(self).pending().len() == 0,
            final(self).unknown_lines() == old(self).unknown_lines(),
            final(self).decoded() == old(self).decoded(),
    {
        if self.temp.len() == 0 {
            return;
        }
        let ghost arrived = self.arrived@;
        let t = self.temp[0].timestamp();
        let ghost b = self.itch@;
        let ghost p = self.temp@;
        assert(self.pending() == p);
        assert(self.batches() == b);
        assert(forall|j: int| 0 <= j < p.len() ==> (#[trigger] p[j]).spec_timestamp()
            == p[0].spec_timestamp());
        let mut pending: Vec<MessageEnum> = Vec::new();
        std::mem::swap(&mut pending, &mut self.temp);
        assert(pending@ == p);
        assert(forall|j: int| 0 <= j < p.len() ==> (#[trigger] p[j]).spec_timestamp() == t);
        let k = self.position(&t);
        if k < self.itch.len() && self.itch[k].0 == t {
            let (key, mut batch) = self.itch.remove(k);
            let ghost old_batch = batch@;
            batch.append(&mut pending);
            self.itch.insert(k, (key, batch));
            let ghost b2 = self.itch@;
            assert forall|i: int, j: int| 0 <= i < j < b2.len() implies (#[trigger] b2[i]).0.spec_before(
                (#[trigger] b2[j]).0,
            ) by {
                assert(b2[i].0 == b[i].0 && b2[j].0 == b[j].0);
            }
            assert forall|i: int, j: int|
                0 <= i < b2.len() && 0 <= j < b2[i].1@.len() implies (#[trigger] b2[i].1@[j]).spec_timestamp()
                == b2[i].0 by {
                if i != k {
                    assert(b2[i] == b[i]);
                } else if j >= old_batch.len() {
                    assert(b2[i].1@[j] == p[j - old_batch.len()]);
                    assert(p[j - old_batch.len()].spec_timestamp() == p[0].spec_timestamp());
                } else {
                    assert(b2[i].1@[j] == b[i].1@[j]);
                }
            }
            assert forall|i: int| 0 <= i < b2.len() implies (#[trigger] b2[i]).1@.len() > 0 by {
                if i != k {
                    assert(b2[i] == b[i]);
                }
            }
            assert forall|u: Timestamp| #[trigger]
                collected(self.itch@, self.temp@, u) == with_ts(arrived, u) by {
                assert(collected(b, p, u) == with_ts(arrived, u));
                assert(collected(self.itch@, self.temp@, u) =~= batch_of(b2, u));
                if u == t {
                    lemma_batch_of_at(b2, t, k as int);
                    lemma_batch_of_at(b, t, k as int);
                    assert(b2[k as int].1@ =~= b[k as int].1@ + p);
                } else if exists|j: int| 0 <= j < b.len() && (#[trigger] b[j]).0 == u {
                    let j = choose|j: int| 0 <= j < b.len() && (#[trigger] b[j]).0 == u;
                    lemma_batch_of_at(b, u, j);
                    assert(b2[j] == b[j]);
                    lemma_batch_of_at(b2, u, j);
                    assert(collected(b, p, u) =~= batch_of(b, u));
                } else {
                    lemma_batch_of_absent(b, u);
                    assert forall|j: int| 0 <= j < b2.len() implies (#[trigger] b2[j]).0 != u by {
                        assert(b2[j].0 == b[j].0);
                    }
                    lemma_batch_of_absent(b2, u);
                    assert(collected(b, p, u) =~= batch_of(b, u));
                }
            }
        } else {
            self.itch.insert(k, (t, pending));
            let ghost b2 = self.itch@;
            assert(k < b.len() ==> t.spec_before(b[k as int].0));
            assert forall|i: int, j: int| 0 <= i < j < b2.len() implies (#[trigger] b2[i]).0.spec_before(
                (#[trigger] b2[j]).0,
            ) by {
                if j < k {
                    assert(b2[i] == b[i] && b2[j] == b[j]);
                } else if j == k {
                    assert(b2[i] == b[i]);
                } else if i < k {
                    assert(b2[i] == b[i] && b2[j] == b[j - 1]);
                    assert(b[i].0.spec_before(t));
                } else if i == k {
                    assert(b2[j] == b[j - 1]);
                    if j - 1 > k {
                        assert(b[k as int].0.spec_before(b[j - 1].0));
                    }
                } else {
                    assert(b2[i] == b[i - 1] && b2[j] == b[j - 1]);
                }
            }
            assert forall|i: int, j: int|
                0 <= i < b2.len() && 0 <= j < b2[i].1@.len() implies (#[trigger] b2[i].1@[j]).spec_timestamp()
                == b2[i].0 by {
                if i < k {
                    assert(b2[i] == b[i]);
                } else if i > k {
                    assert(b2[i] == b[i - 1]);
                }
            }
            assert forall|i: int| 0 <= i < b2.len() implies (#[trigger] b2[i]).1@.len() > 0 by {
                if i < k {
                    assert(b2[i] == b[i]);
                } else if i > k {
                    assert(b2[i] == b[i - 1]);
                }
            }
            assert forall|j: int| 0 <= j < b.len() implies (#[trigger] b[j]).0 != t by {
                if j > k {
                    assert(b[k as int].0.spec_before(b[j].0));
                }
            }
            assert forall|u: Timestamp| #[trigger]
                collected(self.itch@, self.temp@, u) == with_ts(arrived, u) by {
                assert(collected(b, p, u) == with_ts(arrived, u));
                assert(collected(self.itch@, self.temp@, u) =~= batch_of(b2, u));
                if u == t {
                    lemma_batch_of_at(b2, t, k as int);
                    lemma_batch_of_absent(b, t);
                    assert(collected(b, p, u) =~= p);
                } else if exists|j: int| 0 <= j < b.len() && (#[trigger] b[j]).0 == u {
                    let j = choose|j: int| 0 <= j < b.len() && (#[trigger] b[j]).0 == u;
                    lemma_batch_of_at(b, u, j);
                    let j2 = if j < k {
                        j
                    } else {
                        j + 1
                    };
                    assert(b2[j2] == b[j]);
                    lemma_batch_of_at(b2, u, j2);
                    assert(collected(b, p, u) =~= batch_of(b, u));
                } else {
                    lemma_batch_of_absent(b, u);
                    assert forall|j: int| 0 <= j < b2.len() implies (#[trigger] b2[j]).0 != u by {
                        if j < k {
                            assert(b2[j] == b[j]);
                        } else if j > k {
                            assert(b2[j] == b[j - 1]);
                        }
                    }
                    lemma_batch_of_absent(b2, u);
                    assert(collected(b, p, u) =~= batch_of(b, u));
                }
            }
        }
    }

    /// Decodes one line. A record joins the pending batch; a record with another timestamp
    /// first sends the pending records to their batch. A line that does not decode is kept
    /// among the unknown lines.
    #[verifier::spinoff_prover]
    pub fn parse_line(&mut self, s: String)
        requires
            old(self).wf(),
        ensures
            final(self).wf(),
            message_ok(s@) ==> final(self).unknown_lines() == old(self).unknown_lines(),
            !message_ok(s@) ==> final(self).unknown_lines().len() == old(self).unknown_lines().len()
                + 1 && final(self).unknown_lines().last()@ == s@,
            message_ok(s@) ==> {
                &&& final(self).decoded().len() == old(self).decoded().len() + 1
                &&& final(self).decoded().drop_last() == old(self).decoded()
                &&& decoded_as(final(self).decoded().last(), s@)
            },
            !message_ok(s@) ==> final(self).decoded() == old(self).decoded(),
            !message_ok(s@) ==> final(self).unknown_lines().drop_last() == old(self).unknown_lines(),
    {
        match MessageEnum::decode(s.as_str()) {
            Ok(i) => {
                let t = i.timestamp();
                if self.temp.len() > 0 && self.temp[0].timestamp() != t {
                    self.insert_temp();
                }
                let ghost p = self.temp@;
                let ghost a0 = self.arrived@;
                assert(self.pending() == p);
                assert(p.len() > 0 ==> p[0].spec_timestamp() == t);
                self.arrived = Ghost(a0.push(i));
                self.temp.push(i);
                assert forall|u: Timestamp| #[trigger]
                    collected(self.itch@, self.temp@, u) == with_ts(self.arrived@, u) by {
                    assert(a0.push(i).drop_last() =~= a0);
                    assert(collected(self.itch@, p, u) == with_ts(a0, u));
                    assert(self.temp@[0].spec_timestamp() == t);
                    if u == t {
                        assert(collected(self.itch@, self.temp@, u) =~= collected(
                            self.itch@,
                            p,
                            u,
                        ).push(i));
                    } else {
                        assert(collected(self.itch@, self.temp@, u) =~= collected(
                            self.itch@,
                            p,
                            u,
                        ));
                    }
                }
                assert(self.pending() == p.push(i));
                assert(p.len() > 0 ==> self.temp@[0] == p[0]);
                assert(forall|j: int| 0 <= j < p.len() ==> (#[trigger] p[j]).spec_timestamp()
                    == p[0].spec_timestamp());
                assert forall|j: int| 0 <= j < self.temp@.len() implies (#[trigger] self.temp@[j]).spec_timestamp()
                    == self.temp@[0].spec_timestamp() by {
                    if j < p.len() {
                        assert(self.temp@[j] == p[j]);
                    }
                }
                assert(self.pending() == self.temp@);
            },
            Err(e) => {
                let ghost p = self.temp@;
                let ghost u0 = self.unknown@;
                self.unknown.push(e);
                assert(self.pending() == p);
                assert(self.unknown@.drop_last() =~= u0);
            },
        }
    }

    /// Sends the last pending records to their batch and hands over the batches, in
    /// increasing timestamp, with the unknown lines.
    pub fn complete_parsing(self) -> (r: JPXMBOParseResult)
        requires
            self.wf(),
        ensures
            batches_wf(r.itch@),
            forall|t: Timestamp| #[trigger] batch_of(r.itch@, t) == with_ts(self.decoded(), t),
            r.unknown@ == self.unknown_lines(),
    {
        let mut parser = self;
        parser.insert_temp();
        assert forall|t: Timestamp| #[trigger] batch_of(parser.itch@, t) == with_ts(
            parser.arrived@,
            t,
        ) by {
            assert(collected(parser.itch@, parser.temp@, t) =~= batch_of(parser.itch@, t));
        }
        JPXMBOParseResult { itch: parser.itch, unknown: parser.unknown }
    }
}

impl Default for JPXMBOParser {
    fn default() -> (r: Self)
        ensures
            r.wf(),
            r.batches().len() == 0,
            r.pending().len() == 0,
            r.unknown_lines().len() == 0,
    {
        JPXMBOParser::new()
    }
}

/// Decodes every line of `file` and groups the records into batches by timestamp: every
/// line either decodes into a record that lands in the batch of its timestamp, in the order
/// of the lines, or is kept among the unknown lines.
pub fn from_raw_file(file: String) -> (r: JPXMBOParseResult)
    ensures
        batches_wf(r.itch@),
        exists|d: Seq<MessageEnum>|
            #[trigger] batches_hold(r.itch@, d) && read_lines(split_spec(file@, '\n'), d, r.unknown@),
{
    let parser = JPXMBOParser::from_string(file);
    let ghost d = parser.decoded();
    let r = parser.complete_parsing();
    assert(batches_hold(r.itch@, d));
    r
}

} // verus!
