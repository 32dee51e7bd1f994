use vstd::prelude::*;

verus! {

/// Size in bytes of one page of the cached backend.
pub const PAGE_SIZE: usize = 1048576;

/// One piece of a byte range, cut at page boundaries.
pub enum PageType {
    /// The whole page `number`.
    FullPage { number: u64 },
    /// `size` bytes of page `number`, starting `offset` bytes into it.
    PartialPage { number: u64, offset: usize, size: usize },
}

impl PageType {
    /// The page this piece lies in.
    pub open spec fn number(self) -> u64 {
        match self {
            PageType::FullPage { number } => number,
            PageType::PartialPage { number, .. } => number,
        }
    }

    /// Where in its page the piece starts.
    pub open spec fn offset(self) -> int {
        match self {
            PageType::FullPage { .. } => 0,
            PageType::PartialPage { offset, .. } => offset as int,
        }
    }

    /// How many bytes the piece covers.
    pub open spec fn size(self) -> int {
        match self {
            PageType::FullPage { .. } => PAGE_SIZE as int,
            PageType::PartialPage { size, .. } => size as int,
        }
    }
}

/// The first page boundary strictly after `pos`.
pub open spec fn next_boundary(pos: int) -> int {
    (pos / PAGE_SIZE as int + 1) * PAGE_SIZE as int
}

/// Where the piece that starts at `start` ends, in a range that ends at `end`.
pub open spec fn piece_end(start: int, end: int) -> int {
    if next_boundary(start) <= end {
        next_boundary(start)
    } else {
        end
    }
}

/// The piece of `[start, end)` that starts at `start`: a full page exactly
/// when it starts on a boundary and reaches the next one.
pub open spec fn piece_at(start: int, end: int) -> PageType {
    let stop = piece_end(start, end);
    if start % PAGE_SIZE as int == 0 && stop - start == PAGE_SIZE as int {
        PageType::FullPage { number: (start / PAGE_SIZE as int) as u64 }
    } else {
        PageType::PartialPage {
            number: (start / PAGE_SIZE as int) as u64,
            offset: (start % PAGE_SIZE as int) as usize,
            size: (stop - start) as usize,
        }
    }
}

/// The byte range `[start, end)`, walked page by page.
pub struct PageRange {
    pub start: u64,
    pub end: u64,
}

/// The bounds of the piece that starts at `start`, and where it lies in
/// its page.
pub proof fn lemma_piece_bounds(start: int, end: int)
    requires
        0 <= start < end <= u64::MAX,
    ensures
        start < piece_end(start, end) <= end,
        piece_end(start, end) <= next_boundary(start),
        next_boundary(start) == start - start % PAGE_SIZE as int + PAGE_SIZE as int,
        piece_at(start, end).number() == start / PAGE_SIZE as int,
        piece_at(start, end).offset() == start % PAGE_SIZE as int,
        piece_at(start, end).size() == piece_end(start, end) - start,
        piece_at(start, end).offset() + piece_at(start, end).size() <= PAGE_SIZE as int,
{
    let p = PAGE_SIZE as int;
    assert(start == (start / p) * p + start % p) by (nonlinear_arith)
        requires p > 0;
    assert((start / p + 1) * p == (start / p) * p + p) by (nonlinear_arith);
    assert(0 <= start % p < p) by (nonlinear_arith)
        requires p > 0;
    assert(start / p <= start) by (nonlinear_arith)
        requires p > 0, start >= 0;
}

/// Every byte of a piece lies in the page of its first byte, at the offset
/// one would expect.
pub proof fn lemma_within_piece(start: int, end: int, at: int)
    requires
        0 <= start <= at < piece_end(start, end),
        start < end <= u64::MAX,
    ensures
        at / PAGE_SIZE as int == start / PAGE_SIZE as int,
        at % PAGE_SIZE as int == start % PAGE_SIZE as int + (at - start),
{
    let p = PAGE_SIZE as int;
    lemma_piece_bounds(start, end);
    let q = start / p;
    assert(start == q * p + start % p) by (nonlinear_arith)
        requires p > 0, q == start / p;
    assert(0 <= start % p < p) by (nonlinear_arith)
        requires p > 0;
    let r = start % p + (at - start);
    assert(at == q * p + r);
    assert(0 <= r < p);
    assert(at / p == q && at % p == r) by (nonlinear_arith)
        requires at == q * p + r, 0 <= r < p, p > 0;
}

/// The first byte of a page number that `u64` can address fits in `u64`.
pub proof fn lemma_page_start(start: int)
    requires
        0 <= start <= u64::MAX,
    ensures
        (start / PAGE_SIZE as int) * PAGE_SIZE as int <= start,
{
    let p = PAGE_SIZE as int;
    assert((start / p) * p <= start) by (nonlinear_arith)
        requires p > 0, start >= 0;
}

impl PageRange {
    pub fn new(start: u64, end: u64) -> (r: Self)
        ensures
            r.start == start,
            r.end == end,
    {
        Self { start, end }
    }

    /// Cuts the next piece off the front of the range: `None` once the range
    /// is empty, else the piece from `start` to the next page boundary or to
    /// `end`, whichever comes first.
    pub fn next(&mut self) -> (r: Option<PageType>)
        ensures
            final(self).end == old(self).end,
            old(self).start >= old(self).end ==> r is None && final(self).start == old(self).start,
            old(self).start < old(self).end ==> {
                &&& r == Some(piece_at(old(self).start as int, old(self).end as int))
                &&& final(self).start == piece_end(old(self).start as int, old(self).end as int)
            },
    {
        if self.start >= self.end {
            return None;
        }
        proof {
            lemma_piece_bounds(self.start as int, self.end as int);
        }
        let start = self.start;
        let number = start / PAGE_SIZE as u64;
        let offset = start % PAGE_SIZE as u64;
        assert(number + 1 <= u64::MAX);
        let stop = match (number + 1).checked_mul(PAGE_SIZE as u64) {
            Some(boundary) => if boundary <= self.end {
                boundary
            } else {
                self.end
            },
            None => self.end,
        };
        assert(stop == piece_end(start as int, self.end as int));
        self.start = stop;
        if offset == 0 && stop - start == PAGE_SIZE as u64 {
            Some(PageType::FullPage { number })
        } else {
            Some(PageType::PartialPage { number, offset: offset as usize, size: (stop - start) as usize })
        }
    }
}

} // verus!
