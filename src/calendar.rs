//! The schedule book: an ordered list of entries, with the operations that
//! read and change it.
use vstd::prelude::*;
use vstd::string::StringExecFns;

use crate::schedule::{ranges_meet, Schedule};
use crate::stamp::{stamp_text, stamp_text_of, Stamp};

verus! {

/// All entries, in the order they were added.
#[derive(Debug, Clone, PartialEq, Eq)]
pub struct Calendar {
    pub schedules: Vec<Schedule>,
}

/// Why an entry was not added.
#[derive(Debug, Clone, Copy, PartialEq, Eq)]
pub enum AddError {
    /// The start does not come before the end.
    EmptyRange,
    /// An existing entry overlaps the new range.
    Overlap,
}

impl View for Calendar {
    type V = Seq<Schedule>;

    open spec fn view(&self) -> Seq<Schedule> {
        self.schedules@
    }
}

/// Whether some entry of `s` has the identifier `id`.
pub open spec fn has_id(s: Seq<Schedule>, id: u64) -> bool {
    exists|i: int| 0 <= i < s.len() && #[trigger] s[i].id == id
}

/// Whether some entry of `s` overlaps the range `[start, end)`.
pub open spec fn has_conflict(s: Seq<Schedule>, start: Stamp, end: Stamp) -> bool {
    exists|i: int| 0 <= i < s.len() && ranges_meet(#[trigger] s[i].start, s[i].end, start, end)
}

/// Whether no two entries of `s` overlap.
pub open spec fn pairwise_apart(s: Seq<Schedule>) -> bool {
    forall|i: int, j: int|
        0 <= i < s.len() && 0 <= j < s.len() && i != j ==> !(#[trigger] s[i]).meets(
            #[trigger] s[j],
        )
}

/// The decimal digits of `n`, most significant first.
pub open spec fn decimal(n: nat) -> Seq<char>
    decreases n,
{
    if n < 10 {
        seq![((n + 48) as u8) as char]
    } else {
        decimal(n / 10).push((((n % 10) + 48) as u8) as char)
    }
}

/// The header line of a listing.
pub open spec fn header_text() -> Seq<char> {
    seq![
        'I', 'D', '\t',
        'S', 'T', 'A', 'R', 'T', '\t',
        'E', 'N', 'D', '\t',
        'S', 'U', 'B', 'J', 'E', 'C', 'T', '\n',
    ]
}

/// The line of a listing for one entry: its identifier, start, end and
/// subject, separated by tabs; nothing where a timestamp has no text.
pub open spec fn row_text(e: Schedule) -> Option<Seq<char>> {
    match (stamp_text_of(e.start), stamp_text_of(e.end)) {
        (Some(a), Some(b)) => Some(
            decimal(e.id as nat) + seq!['\t'] + a + seq!['\t'] + b + seq!['\t'] + e.subject@
                + seq!['\n'],
        ),
        _ => None,
    }
}

/// The listing of `s`: the header, then one line per entry in order;
/// nothing where some entry's line has no text.
pub open spec fn listing_text(s: Seq<Schedule>) -> Option<Seq<char>>
    decreases s.len(),
{
    if s.len() == 0 {
        Some(header_text())
    } else {
        match (listing_text(s.drop_last()), row_text(s.last())) {
            (Some(a), Some(b)) => Some(a + b),
            _ => None,
        }
    }
}

/// Relies on `ToString` for `u64`, which writes the number in decimal.
#[verifier::external_body]
fn decimal_text(n: u64) -> (r: String)
    ensures
        r@ == decimal(n as nat),
{
    n.to_string()
}

impl Calendar {
    /// A book with no entries.
    pub fn new() -> (r: Calendar)
        ensures
            r@ == Seq::<Schedule>::empty(),
    {
        Calendar { schedules: Vec::new() }
    }

    /// The position of the first entry that overlaps `[start, end)`, if any.
    pub fn first_conflict(&self, start: &Stamp, end: &Stamp) -> (r: Option<usize>)
        ensures
            match r {
                Some(i) => i < self@.len() && ranges_meet(
                    self@[i as int].start,
                    self@[i as int].end,
                    *start,
                    *end,
                ) && forall|j: int|
                    0 <= j < i ==> !ranges_meet(#[trigger] self@[j].start, self@[j].end, *start, *end),
                None => !has_conflict(self@, *start, *end),
            },
    {
        let mut i: usize = 0;
        while i < self.schedules.len()
            invariant
                i <= self@.len(),
                forall|j: int|
                    0 <= j < i ==> !ranges_meet(#[trigger] self@[j].start, self@[j].end, *start, *end),
            decreases self@.len() - i,
        {
            let e = &self.schedules[i];
            if e.start.is_before(end) && start.is_before(&e.end) {
                return Some(i);
            }
            i = i + 1;
        }
        None
    }

    /// The table of all entries: a header line, then one tab-separated line
    /// per entry in order. Nothing where chrono has no text for a timestamp.
    pub fn listing(&self) -> (r: Option<String>)
        ensures
            match r {
                Some(t) => listing_text(self@) == Some(t@),
                None => listing_text(self@).is_none(),
            },
    {
        let mut out = String::from_str("ID\tSTART\tEND\tSUBJECT\n");
        proof {
            reveal_strlit("ID\tSTART\tEND\tSUBJECT\n");
            assert(self@.subrange(0, 0) =~= Seq::<Schedule>::empty());
        }
        let mut i: usize = 0;
        while i < self.schedules.len()
            invariant
                i <= self@.len(),
                listing_text(self@.subrange(0, i as int)) == Some(out@),
            decreases self@.len() - i,
        {
            let e = &self.schedules[i];
            let start = match stamp_text(&e.start) {
                Some(t) => t,
                None => {
                    proof {
                        lemma_listing_none_extends(self@, i as int + 1);
                    }
                    return None;
                },
            };
            let end = match stamp_text(&e.end) {
                Some(t) => t,
                None => {
                    proof {
                        lemma_listing_none_extends(self@, i as int + 1);
                    }
                    return None;
                },
            };
            let mut row = decimal_text(e.id);
            row.append("\t");
            row.append(start.as_str());
            row.append("\t");
            row.append(end.as_str());
            row.append("\t");
            row.append(e.subject.as_str());
            row.append("\n");
            proof {
                reveal_strlit("\t");
                reveal_strlit("\n");
                let s = self@.subrange(0, i as int + 1);
                assert(s.drop_last() =~= self@.subrange(0, i as int));
                assert(s.last() == self@[i as int]);
            }
            out.append(row.as_str());
            i = i + 1;
        }
        proof {
            assert(self@.subrange(0, self@.len() as int) =~= self@);
        }
        Some(out)
    }
}

/// Removes the first entry whose identifier is `id`, keeping the order of
/// the others. Returns whether there was one; without one the book is
/// left as it was.
pub fn delete_schedule(calendar: &mut Calendar, id: u64) -> (r: bool)
    ensures
        r == has_id(old(calendar)@, id),
        r ==> exists|i: int|
            0 <= i < old(calendar)@.len() && old(calendar)@[i].id == id
                && (forall|j: int| 0 <= j < i ==> #[trigger] old(calendar)@[j].id != id)
                && final(calendar)@ == old(calendar)@.remove(i),
        !r ==> final(calendar)@ == old(calendar)@,
        pairwise_apart(old(calendar)@) ==> pairwise_apart(final(calendar)@),
{
    let mut i: usize = 0;
    while i < calendar.schedules.len()
        invariant
            i <= calendar@.len(),
            calendar@ == old(calendar)@,
            forall|j: int| 0 <= j < i ==> #[trigger] calendar@[j].id != id,
        decreases calendar@.len() - i,
    {
        if calendar.schedules[i].id == id {
            calendar.schedules.remove(i);
            proof {
                let o = old(calendar)@;
                assert forall|a: int, b: int|
                    0 <= a < calendar@.len() && 0 <= b < calendar@.len() && a != b
                        && pairwise_apart(o) implies !(#[trigger] calendar@[a]).meets(
                    #[trigger] calendar@[b],
                ) by {
                    let a2 = if a < i { a } else { a + 1 };
                    let b2 = if b < i { b } else { b + 1 };
                    assert(calendar@[a] == o[a2]);
                    assert(calendar@[b] == o[b2]);
                }
            }
            return true;
        }
        i = i + 1;
    }
    false
}

/// Adds an entry for `[start, end)` with the given subject, unless the
/// range is empty or overlaps an existing entry. The new entry's
/// identifier is the number of entries before it; it is returned.
pub fn add_schedule(
    calendar: &mut Calendar,
    subject: String,
    start: Stamp,
    end: Stamp,
) -> (r: Result<u64, AddError>)
    ensures
        !start.before(end) ==> r == Err::<u64, AddError>(AddError::EmptyRange),
        start.before(end) && has_conflict(old(calendar)@, start, end)
            ==> r == Err::<u64, AddError>(AddError::Overlap),
        start.before(end) && !has_conflict(old(calendar)@, start, end) ==> {
            let id = old(calendar)@.len() as u64;
            &&& r == Ok::<u64, AddError>(id)
            &&& final(calendar)@ == old(calendar)@.push(Schedule { id, subject, start, end })
        },
        r.is_err() ==> final(calendar)@ == old(calendar)@,
        pairwise_apart(old(calendar)@) ==> pairwise_apart(final(calendar)@),
{
    if !start.is_before(&end) {
        return Err(AddError::EmptyRange);
    }
    if calendar.first_conflict(&start, &end).is_some() {
        return Err(AddError::Overlap);
    }
    let id = calendar.schedules.len() as u64;
    calendar.schedules.push(Schedule { id, subject, start, end });
    proof {
        let o = old(calendar)@;
        let n = o.len() as int;
        assert forall|a: int, b: int|
            0 <= a < calendar@.len() && 0 <= b < calendar@.len() && a != b && pairwise_apart(
                o,
            ) implies !(#[trigger] calendar@[a]).meets(#[trigger] calendar@[b]) by {
            if a < n && b < n {
                assert(calendar@[a] == o[a] && calendar@[b] == o[b]);
            } else if a < n {
                assert(!ranges_meet(o[a].start, o[a].end, start, end));
            } else {
                assert(!ranges_meet(o[b].start, o[b].end, start, end));
            }
        }
    }
    Ok(id)
}

/// Once some prefix of `s` has no listing, neither has `s`.
proof fn lemma_listing_none_extends(s: Seq<Schedule>, k: int)
    requires
        0 <= k <= s.len(),
        listing_text(s.subrange(0, k)).is_none() || (k > 0 && row_text(s[k - 1]).is_none()),
    ensures
        listing_text(s).is_none(),
    decreases s.len() - k,
{
    let p = s.subrange(0, k);
    if k > 0 {
        assert(p.drop_last() =~= s.subrange(0, k - 1));
        assert(p.last() == s[k - 1]);
    }
    assert(listing_text(p).is_none());
    if k < s.len() {
        let q = s.subrange(0, k + 1);
        assert(q.drop_last() =~= p);
        lemma_listing_none_extends(s, k + 1);
    } else {
        assert(p =~= s);
    }
}

} // verus!
