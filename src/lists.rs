//! Many append-only byte lists kept in one shared vector.
//!
//! Each record starts with a little-endian back pointer to the previous
//! record of its list (its offset plus one, zero for the first record),
//! followed by the record's body; a variable-size body is preceded by its
//! length as a variable-length integer. A list is read back by walking the
//! back pointers from its last record.
use crate::bytes::{
    lemma_read_encoding, lemma_var_bytes_shape, lemma_var_len, read_variant_u64,
    starts_with_var, var_bytes, var_terminated, write_bytes,
};
use vstd::prelude::*;
use vstd::slice::slice_subrange;

verus! {

/// The record of one append, as it was laid out.
pub struct ListRecord {
    /// Where the record starts in the shared vector.
    pub off: int,
    /// Whether the body was written without a length prefix.
    pub fixed: bool,
    pub body: Seq<u8>,
}

/// The bytes between the back pointer and the body.
pub open spec fn record_header(fixed: bool, body_len: nat) -> Seq<u8> {
    if fixed {
        Seq::empty()
    } else {
        var_bytes(body_len)
    }
}

/// The number of bytes that a record with a body of `body_len` bytes takes.
pub open spec fn record_len(fixed: bool, body_len: nat) -> nat {
    4 + record_header(fixed, body_len).len() + body_len
}

pub open spec fn rec_size(r: ListRecord) -> nat {
    record_len(r.fixed, r.body.len())
}

/// Where the body of record `r` starts.
pub open spec fn body_start(r: ListRecord) -> int {
    r.off + 4 + record_header(r.fixed, r.body.len()).len()
}

/// Where record `r` ends.
pub open spec fn rec_end(r: ListRecord) -> int {
    r.off + rec_size(r)
}

/// The bodies of the records, in the order they were appended.
pub open spec fn concat_bodies(rs: Seq<ListRecord>) -> Seq<u8>
    decreases rs.len(),
{
    if rs.len() == 0 {
        Seq::empty()
    } else {
        concat_bodies(rs.drop_last()) + rs.last().body
    }
}

/// The 4 little-endian bytes of `v`.
pub open spec fn u32_le(v: u32) -> Seq<u8> {
    seq![
        (v % 256) as u8,
        ((v / 0x100) % 256) as u8,
        ((v / 0x10000) % 256) as u8,
        ((v / 0x1000000) % 256) as u8,
    ]
}

/// The number that four little-endian bytes stand for.
pub open spec fn le_value(b: Seq<u8>) -> int {
    b[0] + 0x100 * b[1] + 0x10000 * b[2] + 0x1000000 * b[3]
}

/// Each list's contents are kept in the records' format `fixed_size` asks for.
pub open spec fn records_in_format(rs: Seq<ListRecord>, fixed_size: Option<usize>) -> bool {
    forall|j: int|
        0 <= j < rs.len() ==> match fixed_size {
            Some(n) => #[trigger] rs[j].fixed && rs[j].body.len() == n,
            None => !#[trigger] rs[j].fixed,
        }
}

pub proof fn lemma_le_round_trip(v: u32)
    ensures
        le_value(u32_le(v)) == v,
{
}

pub proof fn lemma_concat_append(a: Seq<ListRecord>, b: Seq<ListRecord>)
    ensures
        concat_bodies(a + b) == concat_bodies(a) + concat_bodies(b),
    decreases b.len(),
{
    if b.len() == 0 {
        assert(a + b =~= a);
        assert(concat_bodies(a) + concat_bodies(b) =~= concat_bodies(a));
    } else {
        lemma_concat_append(a, b.drop_last());
        assert((a + b).drop_last() =~= a + b.drop_last());
        assert(concat_bodies(a) + concat_bodies(b) =~= concat_bodies(a) + concat_bodies(
            b.drop_last(),
        ) + b.last().body);
    }
}

pub proof fn lemma_concat_one(r: ListRecord)
    ensures
        concat_bodies(seq![r]) == r.body,
{
    assert(seq![r].drop_last() =~= Seq::<ListRecord>::empty());
    assert(concat_bodies(Seq::<ListRecord>::empty()) == Seq::<u8>::empty());
    assert(seq![r].last() == r);
    assert(concat_bodies(seq![r]) == concat_bodies(seq![r].drop_last()) + r.body);
    assert(Seq::<u8>::empty() + r.body =~= r.body);
}

/// The total number of bytes in all lists.
pub open spec fn total_len(lists: Seq<Seq<u8>>) -> nat
    decreases lists.len(),
{
    if lists.len() == 0 {
        0
    } else {
        total_len(lists.drop_last()) + lists.last().len()
    }
}

pub proof fn lemma_total_len_append(lists: Seq<Seq<u8>>, id: int, data: Seq<u8>)
    requires
        0 <= id < lists.len(),
    ensures
        total_len(append_step(lists, id, data)) == total_len(lists) + data.len(),
    decreases lists.len(),
{
    let next = append_step(lists, id, data);
    if id == lists.len() - 1 {
        assert(next.drop_last() =~= lists.drop_last());
    } else {
        lemma_total_len_append(lists.drop_last(), id, data);
        assert(next.drop_last() =~= append_step(lists.drop_last(), id, data));
    }
}

pub proof fn lemma_total_len_empty(n: nat)
    ensures
        total_len(Seq::new(n, |i: int| Seq::<u8>::empty())) == 0,
    decreases n,
{
    if n > 0 {
        lemma_total_len_empty((n - 1) as nat);
        assert(Seq::new(n, |i: int| Seq::<u8>::empty()).drop_last() =~= Seq::new(
            (n - 1) as nat,
            |i: int| Seq::<u8>::empty(),
        ));
    }
}

/// Implements several append-only lists inside a single vector.
pub struct SingleVecLists {
    /// for each list, the offset of its last record plus one, or zero
    lists_last: Vec<u32>,
    data: Vec<u8>,
    records: Ghost<Seq<Seq<ListRecord>>>,
    /// every append so far: the list and the bytes
    history: Ghost<Seq<(int, Seq<u8>)>>,
}

impl SingleVecLists {
    /// The back pointer stored in record `j` of list `i`.
    pub closed spec fn back_pointer(&self, i: int, j: int) -> int {
        if j == 0 {
            0
        } else {
            self.records@[i][j - 1].off + 1
        }
    }

    pub closed spec fn record_ok(&self, i: int, j: int) -> bool {
        let r = self.records@[i][j];
        &&& 0 <= r.off
        &&& rec_end(r) <= self.data@.len()
        &&& self.back_pointer(i, j) <= u32::MAX
        &&& self.data@.subrange(r.off, r.off + 4) == u32_le(self.back_pointer(i, j) as u32)
        &&& self.data@.subrange(r.off + 4, body_start(r)) == record_header(r.fixed, r.body.len())
        &&& self.data@.subrange(body_start(r), rec_end(r)) == r.body
        &&& j + 1 < self.records@[i].len() ==> rec_end(r) <= self.records@[i][j + 1].off
    }

    pub closed spec fn wf(&self) -> bool {
        &&& self.lists_last@.len() == self.records@.len()
        &&& 4 * self.lists_last@.len() + self.data@.len() < u32::MAX
        &&& total_len(self.view()) <= self.data@.len()
        &&& forall|k: int|
            0 <= k < self.history@.len() ==> 0 <= #[trigger] self.history@[k].0
                < self.records@.len()
        &&& self.view() == replay(
            Seq::new(self.records@.len(), |i: int| Seq::<u8>::empty()),
            self.history@,
        )
        &&& forall|i: int|
            0 <= i < self.records@.len() ==> #[trigger] self.lists_last@[i] == (if self.records@[i].len()
                == 0 {
                0
            } else {
                self.records@[i].last().off + 1
            })
        &&& forall|i: int, j: int|
            0 <= i < self.records@.len() && 0 <= j < self.records@[i].len() ==> #[trigger] self.record_ok(
                i,
                j,
            )
    }

    /// What each list holds: the bytes appended to it, in order.
    pub closed spec fn view(&self) -> Seq<Seq<u8>> {
        Seq::new(self.records@.len(), |i: int| concat_bodies(self.records@[i]))
    }

    /// The appends since the store was made or last cleared: each a list and
    /// the bytes appended to it.
    pub closed spec fn history(&self) -> Seq<(int, Seq<u8>)> {
        self.history@
    }

    /// The records of list `i` were all appended with `fixed_size`.
    pub closed spec fn in_format(&self, i: int, fixed_size: Option<usize>) -> bool {
        records_in_format(self.records@[i], fixed_size)
    }

    /// The bytes held: four for each list, and the shared vector.
    pub closed spec fn size_spec(&self) -> nat {
        4 * self.lists_last@.len() + self.data@.len()
    }

    pub proof fn lemma_size_bounds(&self)
        requires
            self.wf(),
        ensures
            4 * self.view().len() + total_len(self.view()) <= self.size_spec(),
            self.size_spec() < u32::MAX,
    {
    }

    pub fn new(num_lists: usize) -> (r: SingleVecLists)
        requires
            4 * num_lists < u32::MAX,
        ensures
            r.wf(),
            r.view() == Seq::new(num_lists as nat, |i: int| Seq::<u8>::empty()),
            r.size_spec() == 4 * num_lists,
            r.history() == Seq::<(int, Seq<u8>)>::empty(),
            forall|i: int, f: Option<usize>| 0 <= i < num_lists ==> #[trigger] r.in_format(i, f),
    {
        let mut lists_last: Vec<u32> = Vec::new();
        let mut k: usize = 0;
        while k < num_lists
            invariant
                k <= num_lists,
                lists_last@.len() == k,
                forall|i: int| 0 <= i < k ==> lists_last@[i] == 0,
            decreases num_lists - k,
        {
            lists_last.push(0);
            k += 1;
        }
        let r = SingleVecLists {
            lists_last,
            data: Vec::new(),
            records: Ghost(Seq::new(num_lists as nat, |i: int| Seq::<ListRecord>::empty())),
            history: Ghost(Seq::empty()),
        };
        assert(r.view() =~= Seq::new(num_lists as nat, |i: int| Seq::<u8>::empty()));
        proof {
            lemma_total_len_empty(num_lists as nat);
        }
        r
    }

    /// Reads the back pointer stored at `start`.
    fn read_back_pointer(&self, start: usize) -> (r: u32)
        requires
            start + 4 <= self.data@.len(),
        ensures
            r == le_value(self.data@.subrange(start as int, start + 4)),
    {
        let len = self.data.len();
        assert(start + 4 <= len);
        let b0 = self.data[start] as u32;
        let b1 = self.data[start + 1] as u32;
        let b2 = self.data[start + 2] as u32;
        let b3 = self.data[start + 3] as u32;
        assert(b0 < 256 && b1 < 256 && b2 < 256 && b3 < 256);
        b0 + 0x100 * b1 + 0x10000 * b2 + 0x1000000 * b3
    }

    proof fn lemma_bodies_fit(&self, i: int, j: int)
        requires
            self.wf(),
            0 <= i < self.records@.len(),
            0 <= j <= self.records@[i].len(),
        ensures
            concat_bodies(self.records@[i].subrange(0, j)).len() <= (if j == 0 {
                0
            } else {
                rec_end(self.records@[i][j - 1])
            }),
        decreases j,
    {
        let rs = self.records@[i];
        if j > 0 {
            self.lemma_bodies_fit(i, j - 1);
            assert(rs.subrange(0, j).drop_last() =~= rs.subrange(0, j - 1));
            assert(self.record_ok(i, j - 1));
            if j > 1 {
                assert(self.record_ok(i, j - 2));
            }
        } else {
            assert(rs.subrange(0, 0) =~= Seq::<ListRecord>::empty());
        }
    }

    /// The bodies of list `i`, from record `j` on, are the body of record `j`
    /// followed by those from `j + 1` on.
    proof fn lemma_split_at(&self, i: int, j: int)
        requires
            0 <= i < self.records@.len(),
            0 <= j < self.records@[i].len(),
        ensures
            concat_bodies(self.records@[i].subrange(j, self.records@[i].len() as int))
                == self.records@[i][j].body + concat_bodies(
                self.records@[i].subrange(j + 1, self.records@[i].len() as int),
            ),
            concat_bodies(self.records@[i]) == concat_bodies(self.records@[i].subrange(0, j))
                + concat_bodies(self.records@[i].subrange(j, self.records@[i].len() as int)),
    {
        let rs = self.records@[i];
        let k = rs.len() as int;
        assert(seq![rs[j]] + rs.subrange(j + 1, k) =~= rs.subrange(j, k));
        lemma_concat_append(seq![rs[j]], rs.subrange(j + 1, k));
        lemma_concat_one(rs[j]);
        assert(rs.subrange(0, j) + rs.subrange(j, k) =~= rs);
        lemma_concat_append(rs.subrange(0, j), rs.subrange(j, k));
    }

    /// Reads the length of the body of record `j` of list `list_id`, which
    /// starts at `start`, and how many bytes lie between its back pointer and its body.
    fn read_body_len(&self, list_id: usize, start: usize, fixed_size: Option<usize>) -> (r: (
        usize,
        usize,
    ))
        requires
            self.wf(),
            list_id < self.records@.len(),
            self.in_format(list_id as int, fixed_size),
            exists|j: int|
                0 <= j < self.records@[list_id as int].len()
                    && #[trigger] self.records@[list_id as int][j].off == start,
        ensures
            forall|j: int|
                0 <= j < self.records@[list_id as int].len()
                    && #[trigger] self.records@[list_id as int][j].off == start ==> {
                    let rec = self.records@[list_id as int][j];
                    &&& r.0 == rec.body.len()
                    &&& start + 4 + r.1 == body_start(rec)
                },
    {
        let ghost i = list_id as int;
        let ghost j = choose|j: int|
            0 <= j < self.records@[i].len() && #[trigger] self.records@[i][j].off == start;
        let ghost rec = self.records@[i][j];
        proof {
            assert(self.record_ok(i, j));
            assert forall|j2: int|
                0 <= j2 < self.records@[i].len() && #[trigger] self.records@[i][j2].off
                    == start implies j2 == j by {
                if j2 < j {
                    self.lemma_offsets_increase(i, j2, j);
                } else if j < j2 {
                    self.lemma_offsets_increase(i, j, j2);
                }
            }
        }
        match fixed_size {
            Some(n) => {
                assert(rec.fixed && rec.body.len() == n);
                (n, 0)
            },
            None => {
                assert(!rec.fixed);
                let len = self.data.len();
                let tail = slice_subrange(self.data.as_slice(), start + 4, len);
                proof {
                    lemma_var_len(rec.body.len());
                    lemma_var_bytes_shape(rec.body.len());
                    let vb = var_bytes(rec.body.len());
                    assert(tail@.subrange(0, vb.len() as int) =~= self.data@.subrange(
                        start + 4,
                        body_start(rec),
                    ));
                    assert(starts_with_var(tail@, rec.body.len()));
                    assert(tail@[vb.len() - 1] == vb[vb.len() - 1]);
                    assert(var_terminated(tail@));
                }
                let (n, skip) = read_variant_u64(tail);
                proof {
                    lemma_read_encoding(tail@, rec.body.len(), skip as int, n as int);
                }
                (n as usize, skip)
            },
        }
    }

    proof fn lemma_offsets_increase(&self, i: int, a: int, b: int)
        requires
            self.wf(),
            0 <= i < self.records@.len(),
            0 <= a < b < self.records@[i].len(),
        ensures
            self.records@[i][a].off < self.records@[i][b].off,
            rec_end(self.records@[i][a]) <= self.records@[i][b].off,
        decreases b - a,
    {
        assert(self.record_ok(i, a));
        if a + 1 < b {
            assert(self.record_ok(i, a + 1));
            self.lemma_offsets_increase(i, a + 1, b);
        }
    }

    /// Walks list `list_id` from its last record back to its first and adds
    /// up the lengths of the bodies.
    fn list_len(&self, list_id: usize, fixed_size: Option<usize>) -> (r: usize)
        requires
            self.wf(),
            list_id < self.view().len(),
            self.in_format(list_id as int, fixed_size),
        ensures
            r == self.view()[list_id as int].len(),
    {
        let ghost i = list_id as int;
        let ghost rs = self.records@[i];
        let ghost k = rs.len() as int;
        proof {
            self.lemma_bodies_fit(i, k);
            assert(rs.subrange(0, k) =~= rs);
            if k > 0 {
                assert(self.record_ok(i, k - 1));
            }
            assert(rs.subrange(k, k) =~= Seq::<ListRecord>::empty());
        }
        let mut last = self.lists_last[list_id];
        let mut total: usize = 0;
        let ghost mut j: int = k;
        while last > 0
            invariant
                self.wf(),
                i == list_id,
                rs == self.records@[i],
                k == rs.len(),
                i < self.records@.len(),
                self.in_format(i, fixed_size),
                0 <= j <= k,
                last == (if j == 0 {
                    0
                } else {
                    rs[j - 1].off + 1
                }),
                total == concat_bodies(rs.subrange(j, k)).len(),
                concat_bodies(rs).len() <= self.data@.len(),
            decreases j,
        {
            proof {
                assert(self.record_ok(i, j - 1));
                self.lemma_split_at(i, j - 1);
            }
            let start = (last - 1) as usize;
            last = self.read_back_pointer(start);
            proof {
                let bp = self.back_pointer(i, j - 1);
                if j > 1 {
                    assert(self.record_ok(i, j - 2));
                }
                assert(0 <= bp <= u32::MAX);
                lemma_le_round_trip(bp as u32);
                assert(start == rs[j - 1].off);
                assert(self.data@.subrange(start as int, start + 4) == u32_le(bp as u32));
                assert(last == bp);
            }
            let (len, _) = self.read_body_len(list_id, start, fixed_size);
            total = total + len;
            proof {
                j = j - 1;
            }
        }
        proof {
            if j > 0 {
                assert(self.record_ok(i, j - 1));
            }
            assert(rs.subrange(0, k) =~= rs);
            assert(self.view()[i] == concat_bodies(rs));
        }
        total
    }

    /// The bytes appended to list `list_id`, in the order they were appended.
    pub fn extract_list(&self, list_id: usize, fixed_size: Option<usize>) -> (r: Vec<u8>)
        requires
            self.wf(),
            list_id < self.view().len(),
            self.in_format(list_id as int, fixed_size),
        ensures
            r@ == self.view()[list_id as int],
            r@ == appended_to(self.history(), list_id as int),
    {
        let ghost i = list_id as int;
        let ghost rs = self.records@[i];
        let ghost k = rs.len() as int;
        proof {
            lemma_lists_hold_their_appends(self.records@.len(), self.history@);
        }
        let total = self.list_len(list_id, fixed_size);
        let mut out: Vec<u8> = vec![0u8; total];
        proof {
            assert(rs.subrange(0, k) =~= rs);
            assert(rs.subrange(k, k) =~= Seq::<ListRecord>::empty());
            assert(out@.subrange(total as int, total as int) =~= Seq::<u8>::empty());
            assert(concat_bodies(rs.subrange(k, k)) == Seq::<u8>::empty());
            assert(self.view()[i] == concat_bodies(rs));
        }
        let mut remaining = total;
        let mut last = self.lists_last[list_id];
        let ghost mut j: int = k;
        while last > 0
            invariant
                self.wf(),
                i == list_id,
                rs == self.records@[i],
                k == rs.len(),
                i < self.records@.len(),
                self.in_format(i, fixed_size),
                0 <= j <= k,
                last == (if j == 0 {
                    0
                } else {
                    rs[j - 1].off + 1
                }),
                out@.len() == total,
                total == concat_bodies(rs).len(),
                remaining == concat_bodies(rs.subrange(0, j)).len(),
                remaining <= total,
                out@.subrange(remaining as int, total as int) == concat_bodies(rs.subrange(j, k)),
            decreases j,
        {
            proof {
                assert(self.record_ok(i, j - 1));
                self.lemma_split_at(i, j - 1);
                self.lemma_split_at(i, 0);
                assert(rs.subrange(0, 0) =~= Seq::<ListRecord>::empty());
            }
            let start = (last - 1) as usize;
            last = self.read_back_pointer(start);
            proof {
                let bp = self.back_pointer(i, j - 1);
                if j > 1 {
                    assert(self.record_ok(i, j - 2));
                }
                assert(0 <= bp <= u32::MAX);
                lemma_le_round_trip(bp as u32);
                assert(self.data@.subrange(start as int, start + 4) == u32_le(bp as u32));
            }
            let (len, skip) = self.read_body_len(list_id, start, fixed_size);
            let ghost rec = rs[j - 1];
            proof {
                assert(rs[j - 1].off == start);
                assert(len == rec.body.len());
                assert(concat_bodies(rs.subrange(0, j)).len() == concat_bodies(
                    rs.subrange(0, j - 1),
                ).len() + len) by {
                    assert(rs.subrange(0, j).drop_last() =~= rs.subrange(0, j - 1));
                }
            }
            remaining = remaining - len;
            let src = start + 4 + skip;
            let mut t: usize = 0;
            while t < len
                invariant
                    self.wf(),
                    rec == self.records@[i][j - 1],
                    src == body_start(rec),
                    rec_end(rec) <= self.data@.len(),
                    self.data@.subrange(body_start(rec), rec_end(rec)) == rec.body,
                    len == rec.body.len(),
                    t <= len,
                    out@.len() == total,
                    remaining + len <= total,
                    out@.subrange(remaining + len, total as int) == concat_bodies(
                        rs.subrange(j, k),
                    ),
                    out@.subrange(remaining as int, remaining + t) == rec.body.subrange(0, t as int),
                decreases len - t,
            {
                proof {
                    assert(self.data@[src + t] == rec.body[t as int]);
                }
                let ghost before = out@;
                out.set(remaining + t, self.data[src + t]);
                proof {
                    assert(out@.subrange(remaining + len, total as int) =~= before.subrange(
                        remaining + len,
                        total as int,
                    ));
                    assert(out@.subrange(remaining as int, remaining + t + 1) =~= rec.body.subrange(
                        0,
                        t + 1,
                    ));
                }
                t = t + 1;
            }
            proof {
                assert(rec.body.subrange(0, len as int) =~= rec.body);
                assert(out@.subrange(remaining as int, total as int) =~= out@.subrange(
                    remaining as int,
                    remaining + len,
                ) + out@.subrange(remaining + len, total as int));
                j = j - 1;
            }
        }
        proof {
            if j > 0 {
                assert(self.record_ok(i, j - 1));
            }
            assert(rs.subrange(0, k) =~= rs);
            assert(rs.subrange(0, 0) =~= Seq::<ListRecord>::empty());
            assert(out@.subrange(0, total as int) =~= out@);
        }
        out
    }

    /// Empties every list and keeps the allocation for reuse.
    pub fn clear(&mut self)
        requires
            old(self).wf(),
        ensures
            final(self).wf(),
            final(self).view() == Seq::new(old(self).view().len(), |i: int| Seq::<u8>::empty()),
            final(self).size_spec() == 4 * old(self).view().len(),
            final(self).history() == Seq::<(int, Seq<u8>)>::empty(),
            forall|i: int, f: Option<usize>|
                0 <= i < old(self).view().len() ==> #[trigger] final(self).in_format(i, f),
    {
        let n = self.lists_last.len();
        let mut k: usize = 0;
        while k < n
            invariant
                k <= n,
                self.lists_last@.len() == n,
                forall|i: int| 0 <= i < k ==> self.lists_last@[i] == 0,
            decreases n - k,
        {
            self.lists_last.set(k, 0);
            k += 1;
        }
        self.data.clear();
        self.records = Ghost(Seq::new(n as nat, |i: int| Seq::<ListRecord>::empty()));
        self.history = Ghost(Seq::empty());
        assert(self.view() =~= Seq::new(old(self).view().len(), |i: int| Seq::<u8>::empty()));
        proof {
            lemma_total_len_empty(n as nat);
        }
    }

    /// The number of bytes held: four for each list, and the shared vector.
    pub fn size(&self) -> (r: usize)
        requires
            self.wf(),
        ensures
            r == self.size_spec(),
    {
        self.lists_last.len() * 4 + self.data.len()
    }

    /// Appends `data` to list `list_id`: as a record of exactly `n` bytes
    /// where `fixed_size` is `Some(n)`, else with a length prefix.
    pub fn append(&mut self, list_id: usize, data: &[u8], fixed_size: Option<usize>)
        requires
            old(self).wf(),
            list_id < old(self).view().len(),
            fixed_size matches Some(n) ==> data@.len() == n,
            old(self).size_spec() + data@.len() + 14 < u32::MAX,
        ensures
            final(self).wf(),
            final(self).view() == append_step(old(self).view(), list_id as int, data@),
            final(self).history() == old(self).history().push((list_id as int, data@)),
            final(self).size_spec() == old(self).size_spec() + record_len(
                fixed_size is Some,
                data@.len(),
            ),
            old(self).in_format(list_id as int, fixed_size) ==> final(self).in_format(
                list_id as int,
                fixed_size,
            ),
            forall|i: int, f: Option<usize>|
                0 <= i < old(self).view().len() && i != list_id ==> (#[trigger] final(self).in_format(
                    i,
                    f,
                ) == old(self).in_format(i, f)),
    {
        let ghost old_data = self.data@;
        let ghost old_records = self.records@;
        let back_pointer = self.lists_last[list_id];
        let off = self.data.len();
        self.lists_last.set(list_id, off as u32 + 1);
        self.data.push((back_pointer % 256) as u8);
        self.data.push(((back_pointer / 0x100) % 256) as u8);
        self.data.push(((back_pointer / 0x10000) % 256) as u8);
        self.data.push(((back_pointer / 0x1000000) % 256) as u8);
        let fixed = match fixed_size {
            Some(_) => true,
            None => false,
        };
        if !fixed {
            crate::bytes::write_variant_u64(&mut self.data, data.len() as u64);
        }
        write_bytes(&mut self.data, data);
        let ghost rec = ListRecord { off: off as int, fixed, body: data@ };
        proof {
            lemma_var_len(data@.len());
            self.records@ = old_records.update(
                list_id as int,
                old_records[list_id as int].push(rec),
            );
            self.history@ = old(self).history@.push((list_id as int, data@));
            let hdr = record_header(fixed, data@.len());
            assert(self.data@ =~= old_data + u32_le(back_pointer) + hdr + data@);
            assert(self.data@.subrange(0, old_data.len() as int) =~= old_data);
            assert forall|i: int, j: int|
                0 <= i < self.records@.len() && 0 <= j < self.records@[i].len() implies #[trigger] self.record_ok(
                i,
                j,
            ) by {
                if i == list_id && j == old_records[i].len() {
                    assert(self.data@.subrange(off as int, off + 4) =~= u32_le(back_pointer));
                    assert(self.data@.subrange(off + 4, off + 4 + hdr.len()) =~= hdr);
                    assert(self.data@.subrange(body_start(rec), rec_end(rec)) =~= data@);
                } else {
                    assert(old(self).record_ok(i, j));
                    let r = self.records@[i][j];
                    assert(self.data@.subrange(r.off, r.off + 4) =~= old_data.subrange(
                        r.off,
                        r.off + 4,
                    ));
                    assert(self.data@.subrange(r.off + 4, body_start(r)) =~= old_data.subrange(
                        r.off + 4,
                        body_start(r),
                    ));
                    assert(self.data@.subrange(body_start(r), rec_end(r)) =~= old_data.subrange(
                        body_start(r),
                        rec_end(r),
                    ));
                    if i == list_id && j + 1 == old_records[i].len() {
                        assert(self.records@[i][j + 1] == rec);
                    }
                }
            }
            assert(old_records[list_id as int].push(rec).drop_last() =~= old_records[list_id as int]);
            assert(self.view() =~= old(self).view().update(
                list_id as int,
                old(self).view()[list_id as int] + data@,
            ));
            lemma_total_len_append(old(self).view(), list_id as int, data@);
            let old_history = old(self).history@;
            assert(self.history@.drop_last() =~= old_history);
            let empty = Seq::new(self.records@.len(), |i: int| Seq::<u8>::empty());
            assert(replay(empty, self.history@) == append_step(
                replay(empty, old_history),
                list_id as int,
                data@,
            ));
            assert(self.view() == replay(empty, self.history@));
            assert forall|k: int| 0 <= k < self.history@.len() implies 0 <= #[trigger] self.history@[k].0
                < self.records@.len() by {
                if k < old_history.len() {
                    assert(self.history@[k] == old_history[k]);
                }
            }
        }
    }
}

/// What appending `data` to list `id` does to the contents of all lists.
pub open spec fn append_step(lists: Seq<Seq<u8>>, id: int, data: Seq<u8>) -> Seq<Seq<u8>> {
    lists.update(id, lists[id] + data)
}

/// The contents of all lists after the appends `ops`, each a list and the
/// bytes appended to it, starting from `lists`.
pub open spec fn replay(lists: Seq<Seq<u8>>, ops: Seq<(int, Seq<u8>)>) -> Seq<Seq<u8>>
    decreases ops.len(),
{
    if ops.len() == 0 {
        lists
    } else {
        append_step(replay(lists, ops.drop_last()), ops.last().0, ops.last().1)
    }
}

/// The bytes of the appends in `ops` that went to list `i`, in order.
pub open spec fn appended_to(ops: Seq<(int, Seq<u8>)>, i: int) -> Seq<u8>
    decreases ops.len(),
{
    if ops.len() == 0 {
        Seq::empty()
    } else if ops.last().0 == i {
        appended_to(ops.drop_last(), i) + ops.last().1
    } else {
        appended_to(ops.drop_last(), i)
    }
}

/// Starting from `n` empty lists, any sequence of appends leaves in each
/// list exactly the concatenation, in order, of the bytes appended to it:
/// what a store with one vector per list holds.
pub proof fn lemma_lists_hold_their_appends(n: nat, ops: Seq<(int, Seq<u8>)>)
    requires
        forall|k: int| 0 <= k < ops.len() ==> 0 <= #[trigger] ops[k].0 < n,
    ensures
        replay(Seq::new(n, |i: int| Seq::<u8>::empty()), ops) == Seq::new(
            n,
            |i: int| appended_to(ops, i),
        ),
    decreases ops.len(),
{
    let empty = Seq::new(n, |i: int| Seq::<u8>::empty());
    if ops.len() == 0 {
        assert(replay(empty, ops) =~= Seq::new(n, |i: int| appended_to(ops, i)));
    } else {
        let prefix = ops.drop_last();
        assert forall|k: int| 0 <= k < prefix.len() implies 0 <= #[trigger] prefix[k].0 < n by {
            assert(prefix[k] == ops[k]);
        }
        lemma_lists_hold_their_appends(n, prefix);
        assert(0 <= ops[ops.len() - 1].0 < n);
        assert(replay(empty, ops) =~= Seq::new(n, |i: int| appended_to(ops, i)));
    }
}

/// A plain store with one vector per list, against which the shared-vector
/// store can be compared.
pub struct MultiVecLists {
    lists: Vec<Vec<u8>>,
}

impl MultiVecLists {
    pub closed spec fn view(&self) -> Seq<Seq<u8>> {
        Seq::new(self.lists@.len(), |i: int| self.lists@[i]@)
    }

    pub fn new(num_lists: usize) -> (r: MultiVecLists)
        ensures
            r.view() == Seq::new(num_lists as nat, |i: int| Seq::<u8>::empty()),
    {
        let mut lists: Vec<Vec<u8>> = Vec::new();
        let mut k: usize = 0;
        while k < num_lists
            invariant
                k <= num_lists,
                lists@.len() == k,
                forall|i: int| 0 <= i < k ==> lists@[i]@ == Seq::<u8>::empty(),
            decreases num_lists - k,
        {
            lists.push(Vec::new());
            k += 1;
        }
        let r = MultiVecLists { lists };
        assert(r.view() =~= Seq::new(num_lists as nat, |i: int| Seq::<u8>::empty()));
        r
    }

    /// Appends `data` to list `list_id`.
    pub fn append(&mut self, list_id: usize, data: &[u8])
        requires
            list_id < old(self).view().len(),
        ensures
            final(self).view() == append_step(old(self).view(), list_id as int, data@),
    {
        let mut list: Vec<u8> = Vec::new();
        write_bytes(&mut list, self.lists[list_id].as_slice());
        write_bytes(&mut list, data);
        self.lists.set(list_id, list);
        assert(self.view() =~= append_step(old(self).view(), list_id as int, data@));
    }

    /// The bytes appended to list `list_id`, in order.
    pub fn extract_list(&self, list_id: usize) -> (r: Vec<u8>)
        requires
            list_id < self.view().len(),
        ensures
            r@ == self.view()[list_id as int],
    {
        let mut out: Vec<u8> = Vec::new();
        write_bytes(&mut out, self.lists[list_id].as_slice());
        out
    }

    /// Empties every list.
    pub fn clear(&mut self)
        ensures
            final(self).view() == Seq::new(old(self).view().len(), |i: int| Seq::<u8>::empty()),
    {
        let n = self.lists.len();
        let mut k: usize = 0;
        while k < n
            invariant
                k <= n,
                self.lists@.len() == n,
                forall|i: int| 0 <= i < k ==> self.lists@[i]@ == Seq::<u8>::empty(),
            decreases n - k,
        {
            self.lists.set(k, Vec::new());
            k += 1;
        }
        assert(self.view() =~= Seq::new(old(self).view().len(), |i: int| Seq::<u8>::empty()));
    }
}

} // verus!
