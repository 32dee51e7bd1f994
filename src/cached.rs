use std::collections::BTreeMap;
use vstd::prelude::*;

use crate::backend::{Backend, SeekFrom};
use crate::page::{
    lemma_page_start, lemma_piece_bounds, lemma_within_piece, piece_end, PageRange, PageType, PAGE_SIZE,
};

verus! {

broadcast use vstd::laws_cmp::group_laws_cmp, vstd::std_specs::btree::group_btree_axioms;

/// The page that holds byte `at` of the image.
pub open spec fn page_of(at: int) -> u64 {
    (at / PAGE_SIZE as int) as u64
}

/// Where in its page byte `at` of the image lies.
pub open spec fn index_in_page(at: int) -> int {
    at % PAGE_SIZE as int
}

/// Page `k` of `img` lies wholly inside it and its bytes are `page`.
pub open spec fn loaded(img: Seq<u8>, k: u64, page: Seq<u8>) -> bool {
    &&& (k as int + 1) * PAGE_SIZE as int <= img.len()
    &&& page == img.subrange(k as int * PAGE_SIZE as int, (k as int + 1) * PAGE_SIZE as int)
}

/// Byte `j` of page `k` of `img` lies inside it and is `v`.
pub open spec fn from_below(img: Seq<u8>, k: u64, j: int, v: u8) -> bool {
    &&& k as int * PAGE_SIZE as int + j < img.len()
    &&& v == img[k as int * PAGE_SIZE as int + j]
}

/// Two different pages do not overlap.
proof fn lemma_pages_apart(k: u64, k2: u64, j: int)
    requires
        k != k2,
        0 <= j < PAGE_SIZE as int,
    ensures
        !(k as int * PAGE_SIZE as int <= k2 as int * PAGE_SIZE as int + j < k as int * PAGE_SIZE as int
            + PAGE_SIZE as int),
{
    let p = PAGE_SIZE as int;
    let a = k as int;
    let b = k2 as int;
    if b < a {
        assert(b * p + j < a * p) by (nonlinear_arith)
            requires b + 1 <= a, 0 <= j < p, p > 0;
    } else {
        assert(b * p + j >= a * p + p) by (nonlinear_arith)
            requires b >= a + 1, 0 <= j, p > 0;
    }
}

/// Byte `at` of the image, as the pages in `pages` hold it.
pub open spec fn byte_at(pages: Map<u64, Seq<u8>>, at: int) -> u8 {
    pages[page_of(at)][index_in_page(at)]
}

/// Every byte of `[start, start + n)` lies in a page of `pages`.
pub open spec fn covers(pages: Map<u64, Seq<u8>>, start: int, n: int) -> bool {
    forall|at: int| start <= at < start + n ==> pages.contains_key(#[trigger] page_of(at))
}

/// Whether page `k` holds a byte of `[start, start + n)`.
pub open spec fn touches(k: u64, start: int, n: int) -> bool {
    exists|at: int| start <= at < start + n && page_of(at) == k
}

/// A page in the cache.
pub struct CachePage {
    pub data: Vec<u8>,
}

impl CachePage {
    /// A page of zeros.
    pub fn new() -> (r: Self)
        ensures
            r.data@ == Seq::new(PAGE_SIZE as nat, |i: int| 0u8),
    {
        let data = vec![0u8; PAGE_SIZE];
        proof {
            assert(data@ =~= Seq::new(PAGE_SIZE as nat, |i: int| 0u8));
        }
        CachePage { data }
    }
}

/// Copies `src[from..from + n]` over `dst[at..at + n]`.
fn copy_bytes(dst: &mut Vec<u8>, at: usize, src: &[u8], from: usize, n: usize)
    requires
        at + n <= old(dst)@.len(),
        from + n <= src@.len(),
    ensures
        final(dst)@.len() == old(dst)@.len(),
        forall|i: int| at <= i < at + n ==> #[trigger] final(dst)@[i] == src@[from + i - at],
        forall|i: int|
            0 <= i < old(dst)@.len() && !(at <= i < at + n) ==> final(dst)@[i] == old(dst)@[i],
{
    let dst_len = dst.len();
    let src_len = src.len();
    let mut j: usize = 0;
    while j < n
        invariant
            j <= n,
            dst@.len() == dst_len,
            src@.len() == src_len,
            at + n <= dst@.len(),
            from + n <= src@.len(),
            dst@.len() == old(dst)@.len(),
            forall|i: int| at <= i < at + j ==> #[trigger] dst@[i] == src@[from + i - at],
            forall|i: int|
                0 <= i < old(dst)@.len() && !(at <= i < at + j) ==> dst@[i] == old(dst)@[i],
        decreases n - j,
    {
        dst[at + j] = src[from + j];
        j = j + 1;
    }
}

/// A backend using paged cache.
///
/// Will flush the dirty pages to the layer below if and only if `real_flush`
/// is called.
pub struct CachedBackend<B: Backend> {
    backend: B,
    cache: BTreeMap<u64, CachePage>,
    dirty: BTreeMap<u64, bool>,
    my_pos: u64,
    my_len: u64,
}

impl<B: Backend> CachedBackend<B> {
    /// The cached pages, by page number.
    pub closed spec fn pages(&self) -> Map<u64, Seq<u8>> {
        self.cache@.map_values(|p: CachePage| p.data@)
    }

    /// For each cached page, whether it differs from the layer below.
    pub closed spec fn dirty_pages(&self) -> Map<u64, bool> {
        self.dirty@
    }

    /// The cursor.
    pub closed spec fn pos(&self) -> u64 {
        self.my_pos
    }

    /// The length of the image, fixed when the cache was made.
    pub closed spec fn len(&self) -> u64 {
        self.my_len
    }

    /// The layer below.
    pub closed spec fn inner(&self) -> B {
        self.backend
    }

    /// Every page is a whole page, and the dirty flags are kept for exactly
    /// the cached pages.
    pub closed spec fn wf(&self) -> bool {
        &&& forall|k: u64| #[trigger]
            self.cache@.contains_key(k) ==> self.cache@[k].data@.len() == PAGE_SIZE
        &&& self.dirty@.dom() == self.cache@.dom()
        &&& forall|k: u64| #[trigger]
            self.cache@.contains_key(k) ==> k as int * PAGE_SIZE as int <= u64::MAX
    }

    proof fn lemma_pages(&self)
        ensures
            self.pages().dom() == self.cache@.dom(),
            forall|k: u64| #[trigger]
                self.pages().contains_key(k) ==> self.pages()[k] == self.cache@[k].data@,
    {
    }

    /// A cache over `backend`, whose image is `len` bytes long, with the
    /// cursor at the start and no page cached.
    pub fn new_with_len_known(backend: B, len: u64) -> (r: Self)
        ensures
            r.wf(),
            r.inner() == backend,
            r.len() == len,
            r.pos() == 0,
            r.pages() == Map::<u64, Seq<u8>>::empty(),
            r.dirty_pages() == Map::<u64, bool>::empty(),
    {
        let r = Self { backend, cache: BTreeMap::new(), dirty: BTreeMap::new(), my_pos: 0, my_len: len };
        proof {
            assert(r.pages() =~= Map::<u64, Seq<u8>>::empty());
        }
        r
    }

    /// A cache over `backend`, whose length is found by seeking to its end;
    /// the cursor of `backend` is then put back at its start.
    pub fn new(backend: B) -> (r: Result<Self, std::io::Error>)
        ensures
            r matches Ok(c) ==> {
                &&& c.wf()
                &&& c.pos() == 0
                &&& c.pages() == Map::<u64, Seq<u8>>::empty()
                &&& c.dirty_pages() == Map::<u64, bool>::empty()
            },
    {
        let mut backend = backend;
        let len = match backend.seek(SeekFrom::End(0)) {
            Ok(len) => len,
            Err(e) => return Err(e),
        };
        match backend.seek(SeekFrom::Start(0)) {
            Ok(_) => {},
            Err(e) => return Err(e),
        }
        Ok(Self::new_with_len_known(backend, len))
    }

    /// Moves the cursor; an offset from the end or from the cursor wraps
    /// around at 2^64. Nothing is asked of the layer below.
    pub fn seek(&mut self, pos: SeekFrom) -> (r: Result<u64, std::io::Error>)
        ensures
            final(self).pos() == match pos {
                SeekFrom::Start(p) => p,
                SeekFrom::End(d) => old(self).len().wrapping_add_signed(d),
                SeekFrom::Current(d) => old(self).pos().wrapping_add_signed(d),
            },
            r == Ok::<u64, std::io::Error>(final(self).pos()),
            final(self).pages() == old(self).pages(),
            final(self).dirty_pages() == old(self).dirty_pages(),
            final(self).len() == old(self).len(),
            final(self).inner() == old(self).inner(),
            final(self).wf() == old(self).wf(),
    {
        self.my_pos = match pos {
            SeekFrom::Start(p) => p,
            SeekFrom::End(d) => self.my_len.wrapping_add_signed(d),
            SeekFrom::Current(d) => self.my_pos.wrapping_add_signed(d),
        };
        Ok(self.my_pos)
    }

    /// The layer below.
    pub fn get_ref(&self) -> (r: &B)
        ensures
            *r == self.inner(),
    {
        &self.backend
    }

    /// The cursor.
    pub fn stream_position(&self) -> (r: Result<u64, std::io::Error>)
        ensures
            r == Ok::<u64, std::io::Error>(self.pos()),
    {
        Ok(self.my_pos)
    }

    /// Does nothing: dirty pages stay in the cache until `real_flush`.
    pub fn flush(&self) -> (r: Result<(), std::io::Error>)
        ensures
            r is Ok,
    {
        Ok(())
    }
}

impl<B: Backend> CachedBackend<B> {
    /// What stays true of the cache through a read: cached pages keep their
    /// bytes and flags, and any new page was touched by the read, is clean,
    /// and holds what the layer below held at its place.
    pub open spec fn read_frame(old_c: Self, new_c: Self, start: int, n: int) -> bool {
        &&& forall|k: u64| #[trigger]
            old_c.pages().contains_key(k) ==> {
                &&& new_c.pages().contains_key(k)
                &&& new_c.pages()[k] == old_c.pages()[k]
                &&& new_c.dirty_pages()[k] == old_c.dirty_pages()[k]
            }
        &&& forall|k: u64| #[trigger]
            new_c.pages().contains_key(k) && !old_c.pages().contains_key(k) ==> {
                &&& touches(k, start, n)
                &&& !new_c.dirty_pages()[k]
                &&& loaded(old_c.inner().image(), k, new_c.pages()[k])
            }
    }

    /// Makes sure page `number` is cached: if it is not, reads it whole from
    /// the layer below and caches it clean.
    fn load_page(&mut self, number: u64) -> (r: Result<(), std::io::Error>)
        requires
            old(self).wf(),
            number as int * PAGE_SIZE as int <= u64::MAX,
        ensures
            final(self).wf(),
            final(self).my_pos == old(self).my_pos,
            final(self).my_len == old(self).my_len,
            forall|k: u64| #[trigger]
                old(self).pages().contains_key(k) ==> {
                    &&& final(self).pages().contains_key(k)
                    &&& final(self).pages()[k] == old(self).pages()[k]
                    &&& final(self).dirty_pages()[k] == old(self).dirty_pages()[k]
                },
            forall|k: u64| #[trigger]
                final(self).pages().contains_key(k) && !old(self).pages().contains_key(k) ==> {
                    &&& k == number
                    &&& !final(self).dirty_pages()[k]
                    &&& loaded(old(self).inner().image(), k, final(self).pages()[k])
                },
            r is Ok ==> final(self).inner().image() == old(self).inner().image(),
            old(self).pages().contains_key(number) ==> r is Ok,
            r is Ok ==> final(self).pages().contains_key(number),
    {
        proof {
            self.lemma_pages();
        }
        if self.cache.contains_key(&number) {
            return Ok(());
        }
        let mut page = CachePage::new();
        match self.backend.seek(SeekFrom::Start(number * PAGE_SIZE as u64)) {
            Ok(_) => {},
            Err(e) => return Err(e),
        }
        match self.backend.read_exact(&mut page.data) {
            Ok(()) => {},
            Err(e) => return Err(e),
        }
        self.cache.insert(number, page);
        self.dirty.insert(number, false);
        proof {
            self.lemma_pages();
        }
        Ok(())
    }

    /// Reads `buf.len()` bytes at the cursor through the cache, and moves the
    /// cursor past them. Pages that are not cached yet are read whole from
    /// the layer below and cached clean; the bytes always come from the cache.
    pub fn read(&mut self, buf: &mut Vec<u8>) -> (r: Result<usize, std::io::Error>)
        requires
            old(self).wf(),
            old(self).pos() + old(buf)@.len() <= u64::MAX,
        ensures
            final(self).wf(),
            final(buf)@.len() == old(buf)@.len(),
            final(self).len() == old(self).len(),
            Self::read_frame(*old(self), *final(self), old(self).pos() as int, old(buf)@.len() as int),
            r is Ok ==> final(self).inner().image() == old(self).inner().image(),
            covers(old(self).pages(), old(self).pos() as int, old(buf)@.len() as int) ==> r is Ok,
            match r {
                Ok(n) => {
                    &&& n == old(buf)@.len()
                    &&& final(self).pos() == old(self).pos() + n
                    &&& covers(final(self).pages(), old(self).pos() as int, n as int)
                    &&& forall|i: int|
                        0 <= i < n ==> #[trigger] final(buf)@[i] == byte_at(
                            final(self).pages(),
                            old(self).pos() + i,
                        )
                },
                Err(_) => final(self).pos() == old(self).pos(),
            },
    {
        let start = self.my_pos;
        let len = buf.len();
        let mut range = PageRange::new(start, start + len as u64);
        let mut done: usize = 0;
        while range.start < range.end
            invariant
                self.wf(),
                range.end == start + len,
                range.start == start + done,
                done <= len,
                buf@.len() == len,
                len == old(buf)@.len(),
                start == old(self).my_pos,
                self.my_pos == start,
                self.my_len == old(self).my_len,
                Self::read_frame(*old(self), *self, start as int, done as int),
                self.backend.image() == old(self).backend.image(),
                covers(self.pages(), start as int, done as int),
                forall|i: int|
                    0 <= i < done ==> #[trigger] buf@[i] == byte_at(self.pages(), start + i),
                forall|at: int|
                    start + done <= at < start + len && covers(old(self).pages(), start as int, len as int)
                        ==> old(self).pages().contains_key(#[trigger] page_of(at)),
            decreases range.end - range.start,
        {
            let ghost at0 = range.start as int;
            let (number, offset, size) = match range.next().unwrap() {
                PageType::FullPage { number } => (number, 0usize, PAGE_SIZE),
                PageType::PartialPage { number, offset, size } => (number, offset, size),
            };
            let ghost stop = piece_end(at0, range.end as int);
            proof {
                lemma_piece_bounds(at0, range.end as int);
                lemma_page_start(at0);
                assert(number == page_of(at0));
                assert(offset == index_in_page(at0));
                assert(size == stop - at0);
            }
            let ghost before = *self;
            let ghost old_buf = buf@;
            match self.load_page(number) {
                Ok(()) => {},
                Err(e) => {
                    proof {
                        assert forall|k: u64| #[trigger]
                            self.pages().contains_key(k) && !old(self).pages().contains_key(k)
                            implies touches(k, start as int, len as int) && !self.dirty_pages()[k] by {
                            if before.pages().contains_key(k) {
                                let at = choose|at: int| start <= at < start + done && page_of(at) == k;
                                assert(start <= at < start + len && page_of(at) == k);
                            } else {
                                assert(start <= at0 < start + len && page_of(at0) == k);
                            }
                        }
                    }
                    return Err(e);
                },
            }
            proof {
                self.lemma_pages();
            }
            let page = self.cache.get(&number).unwrap();
            copy_bytes(buf, done, page.data.as_slice(), offset, size);
            proof {
                assert forall|at: int| at0 <= at < stop implies page_of(at) == number
                    && index_in_page(at) == offset + (at - at0) by {
                    lemma_within_piece(at0, range.end as int, at);
                }
                assert forall|i: int| 0 <= i < done + size implies #[trigger] buf@[i] == byte_at(
                    self.pages(),
                    start + i,
                ) by {
                    if i >= done {
                        assert(page_of(start + i) == number);
                    } else {
                        assert(buf@[i] == old_buf[i]);
                        assert(before.pages().contains_key(page_of(start + i)));
                    }
                }
                assert forall|at: int| start <= at < start + done + size implies self.pages().contains_key(
                    #[trigger] page_of(at),
                ) by {
                    if at >= at0 {
                        assert(page_of(at) == number);
                    } else {
                        assert(before.pages().contains_key(page_of(at)));
                    }
                }
                assert forall|k: u64| #[trigger]
                    self.pages().contains_key(k) && !old(self).pages().contains_key(k)
                    implies touches(k, start as int, done + size) && !self.dirty_pages()[k] by {
                    if before.pages().contains_key(k) {
                        let at = choose|at: int| start <= at < start + done && page_of(at) == k;
                        assert(start <= at < start + done + size && page_of(at) == k);
                    } else {
                        assert(start <= at0 < start + done + size && page_of(at0) == k);
                    }
                }
            }
            done = done + size;
        }
        self.my_pos = start + done as u64;
        Ok(done)
    }
}

/// Byte `at` of the image lies at `index_in_page(at)` of page `page_of(at)`.
proof fn lemma_decompose(at: int)
    requires
        0 <= at <= u64::MAX,
    ensures
        at == page_of(at) as int * PAGE_SIZE as int + index_in_page(at),
        0 <= index_in_page(at) < PAGE_SIZE as int,
{
    let p = PAGE_SIZE as int;
    assert(at == (at / p) * p + at % p && 0 <= at % p < p && 0 <= at / p <= at) by (nonlinear_arith)
        requires p > 0, at >= 0;
}

/// Reads page `number` whole from `backend`, and puts its cursor back.
fn fetch_page<B: Backend>(backend: &mut B, number: u64) -> (r: Result<CachePage, std::io::Error>)
    requires
        number as int * PAGE_SIZE as int <= u64::MAX,
    ensures
        r matches Ok(page) ==> {
            &&& loaded(old(backend).image(), number, page.data@)
            &&& final(backend).image() == old(backend).image()
            &&& final(backend).cursor() == old(backend).cursor()
        },
{
    let mut page = CachePage::new();
    let origin = match backend.stream_position() {
        Ok(p) => p,
        Err(e) => return Err(e),
    };
    match backend.seek(SeekFrom::Start(number * PAGE_SIZE as u64)) {
        Ok(_) => {},
        Err(e) => return Err(e),
    }
    match backend.read_exact(&mut page.data) {
        Ok(()) => {},
        Err(e) => return Err(e),
    }
    match backend.seek(SeekFrom::Start(origin)) {
        Ok(_) => {},
        Err(e) => return Err(e),
    }
    Ok(page)
}

impl<B: Backend> CachedBackend<B> {
    /// What stays true of the cache through a write of `n` bytes at `start`:
    /// cached pages stay cached, with their bytes outside the written range
    /// and the flags of untouched pages as they were, and any new page was
    /// touched by the write and holds, outside the written range, what the
    /// layer below held at its place.
    pub open spec fn write_frame(
        old_c: Self,
        new_pages: Map<u64, Seq<u8>>,
        new_dirty: Map<u64, bool>,
        start: int,
        n: int,
    ) -> bool {
        &&& forall|k: u64| #[trigger]
            old_c.pages().contains_key(k) ==> {
                &&& new_pages.contains_key(k)
                &&& !touches(k, start, n) ==> new_dirty[k] == old_c.dirty_pages()[k]
            }
        &&& forall|k: u64, j: int|
            old_c.pages().contains_key(k) && 0 <= j < PAGE_SIZE as int && !(start <= k as int
                * PAGE_SIZE as int + j < start + n) ==> #[trigger] new_pages[k][j]
                == old_c.pages()[k][j]
        &&& forall|k: u64| #[trigger]
            new_pages.contains_key(k) && !old_c.pages().contains_key(k) ==> touches(
                k,
                start,
                n,
            )
        &&& forall|k: u64, j: int|
            new_pages.contains_key(k) && !old_c.pages().contains_key(k) && 0 <= j < PAGE_SIZE as int
                && !(start <= k as int * PAGE_SIZE as int + j < start + n) ==> from_below(
                old_c.inner().image(),
                k,
                j,
                #[trigger] new_pages[k][j],
            )
    }

    proof fn lemma_write_frame_grows(
        old_c: Self,
        new_pages: Map<u64, Seq<u8>>,
        new_dirty: Map<u64, bool>,
        start: int,
        n: int,
        m: int,
    )
        requires
            Self::write_frame(old_c, new_pages, new_dirty, start, n),
            n <= m,
        ensures
            Self::write_frame(old_c, new_pages, new_dirty, start, m),
    {
        assert forall|k: u64| #[trigger] touches(k, start, n) implies touches(k, start, m) by {
            let at = choose|at: int| start <= at < start + n && page_of(at) == k;
        }
        assert forall|k: u64, j: int|
            new_pages.contains_key(k) && !old_c.pages().contains_key(k) && 0 <= j < PAGE_SIZE as int
                && !(start <= k as int * PAGE_SIZE as int + j < start + m) implies from_below(
                old_c.inner().image(),
                k,
                j,
                #[trigger] new_pages[k][j],
            ) by {
            assert(!(start <= k as int * PAGE_SIZE as int + j < start + n));
        }
        assert forall|k: u64, j: int|
            old_c.pages().contains_key(k) && 0 <= j < PAGE_SIZE as int && !(start <= k as int
                * PAGE_SIZE as int + j < start + m) implies #[trigger] new_pages[k][j]
                == old_c.pages()[k][j] by {
            assert(!(start <= k as int * PAGE_SIZE as int + j < start + n));
        }
        assert forall|k: u64| #[trigger] old_c.pages().contains_key(k) implies {
            &&& new_pages.contains_key(k)
            &&& !touches(k, start, m) ==> new_dirty[k] == old_c.dirty_pages()[k]
        } by {
            if !touches(k, start, m) {
                assert(!touches(k, start, n));
            }
        }
        assert forall|k: u64| #[trigger]
            new_pages.contains_key(k) && !old_c.pages().contains_key(k) implies touches(k, start, m) by {
            assert(touches(k, start, n));
        }
    }

    /// Writes `buf` at the cursor into the cache, marks every page it
    /// touches dirty, and moves the cursor past it. A page that is not cached
    /// yet and that the write covers only in part is first read whole from
    /// the layer below; nothing is written below before `real_flush`.
    pub fn write(&mut self, buf: &[u8]) -> (r: Result<usize, std::io::Error>)
        requires
            old(self).wf(),
            old(self).pos() + buf@.len() <= u64::MAX,
        ensures
            final(self).wf(),
            final(self).len() == old(self).len(),
            Self::write_frame(
                *old(self),
                final(self).pages(),
                final(self).dirty_pages(),
                old(self).pos() as int,
                buf@.len() as int,
            ),
            r is Ok ==> final(self).inner().image() == old(self).inner().image(),
            covers(old(self).pages(), old(self).pos() as int, buf@.len() as int) ==> r is Ok,
            match r {
                Ok(n) => {
                    &&& n == buf@.len()
                    &&& final(self).pos() == old(self).pos() + n
                    &&& covers(final(self).pages(), old(self).pos() as int, n as int)
                    &&& forall|i: int|
                        0 <= i < n ==> byte_at(final(self).pages(), old(self).pos() + i)
                            == #[trigger] buf@[i]
                    &&& forall|k: u64|
                        #[trigger] touches(k, old(self).pos() as int, n as int)
                            ==> final(self).dirty_pages()[k]
                },
                Err(_) => final(self).pos() == old(self).pos(),
            },
    {
        let start = self.my_pos;
        let len = buf.len();
        let mut range = PageRange::new(start, start + len as u64);
        let mut done: usize = 0;
        while range.start < range.end
            invariant
                self.wf(),
                range.end == start + len,
                range.start == start + done,
                done <= len,
                len == buf@.len(),
                start == old(self).my_pos,
                self.my_pos == start,
                self.my_len == old(self).my_len,
                Self::write_frame(*old(self), self.pages(), self.dirty_pages(), start as int, done as int),
                self.backend.image() == old(self).backend.image(),
                covers(self.pages(), start as int, done as int),
                forall|i: int|
                    0 <= i < done ==> byte_at(self.pages(), start + i) == #[trigger] buf@[i],
                forall|k: u64| #[trigger]
                    touches(k, start as int, done as int) ==> self.dirty_pages()[k],
                forall|at: int|
                    start + done <= at < start + len && covers(old(self).pages(), start as int, len as int)
                        ==> old(self).pages().contains_key(#[trigger] page_of(at)),
            decreases range.end - range.start,
        {
            let ghost at0 = range.start as int;
            let (number, offset, size, whole) = match range.next().unwrap() {
                PageType::FullPage { number } => (number, 0usize, PAGE_SIZE, true),
                PageType::PartialPage { number, offset, size } => (number, offset, size, false),
            };
            let ghost stop = piece_end(at0, range.end as int);
            proof {
                lemma_piece_bounds(at0, range.end as int);
                lemma_page_start(at0);
                lemma_decompose(at0);
                self.lemma_pages();
                assert(number == page_of(at0));
                assert(offset == index_in_page(at0));
                assert(size == stop - at0);
            }
            let ghost before = *self;
            let mut page = match self.cache.remove(&number) {
                Some(page) => page,
                None => {
                    proof {
                        assert(self.cache@ =~= before.cache@);
                    }
                    if whole {
                        CachePage::new()
                    } else {
                        match fetch_page(&mut self.backend, number) {
                            Ok(page) => page,
                            Err(e) => {
                                proof {
                                    self.lemma_pages();
                                    before.lemma_pages();
                                    assert(self.pages() =~= before.pages());
                                    assert(self.dirty_pages() == before.dirty_pages());
                                    Self::lemma_write_frame_grows(
                                        *old(self),
                                        self.pages(),
                                        self.dirty_pages(),
                                        start as int,
                                        done as int,
                                        len as int,
                                    );
                                }
                                return Err(e);
                            },
                        }
                    }
                },
            };
            let ghost old_data = page.data@;
            proof {
                if !before.cache@.contains_key(number) && !whole {
                    assert(loaded(old(self).backend.image(), number, old_data));
                }
            }
            copy_bytes(&mut page.data, offset, buf, done, size);
            self.cache.insert(number, page);
            self.dirty.insert(number, true);
            proof {
                assert(self.dirty@.dom() =~= self.cache@.dom());
                self.lemma_pages();
                assert forall|at: int| at0 <= at < stop implies page_of(at) == number
                    && index_in_page(at) == offset + (at - at0) by {
                    lemma_within_piece(at0, range.end as int, at);
                }
                assert forall|at: int| start <= at < at0 && page_of(at) == number implies index_in_page(at) < offset by {
                    lemma_decompose(at);
                }
                assert forall|i: int| 0 <= i < done + size implies byte_at(self.pages(), start + i)
                    == #[trigger] buf@[i] by {
                    if i >= done {
                        assert(page_of(start + i) == number);
                    } else {
                        assert(before.pages().contains_key(page_of(start + i)));
                        if page_of(start + i) == number {
                            assert(index_in_page(start + i) < offset);
                        }
                    }
                }
                assert forall|at: int| start <= at < start + done + size implies self.pages().contains_key(
                    #[trigger] page_of(at),
                ) by {
                    if at >= at0 {
                        assert(page_of(at) == number);
                    } else {
                        assert(before.pages().contains_key(page_of(at)));
                    }
                }
                assert forall|k: u64| #[trigger]
                    touches(k, start as int, done + size) implies self.dirty_pages()[k] by {
                    let at = choose|at: int| start <= at < start + done + size && page_of(at) == k;
                    if at < at0 {
                        assert(touches(k, start as int, done as int));
                    } else {
                        assert(page_of(at) == number);
                    }
                }
                assert forall|k: u64| #[trigger]
                    old(self).pages().contains_key(k) implies {
                        &&& self.pages().contains_key(k)
                        &&& !touches(k, start as int, done + size) ==> self.dirty_pages()[k] == old(self).dirty_pages()[k]
                    } by {
                    if k == number {
                        assert(touches(k, start as int, done + size));
                    }
                }
                assert forall|k: u64, j: int|
                    old(self).pages().contains_key(k) && 0 <= j < PAGE_SIZE as int && !(start <= k as int
                        * PAGE_SIZE as int + j < start + done + size) implies #[trigger] self.pages()[k][j]
                        == old(self).pages()[k][j] by {
                    if k == number {
                        assert(before.pages()[k] == old_data);
                        assert(!(offset <= j < offset + size));
                    }
                }
                assert forall|k: u64| #[trigger]
                    self.pages().contains_key(k) && !old(self).pages().contains_key(k) implies touches(
                        k,
                        start as int,
                        done + size,
                    ) by {
                    if k == number {
                        assert(start <= at0 < start + done + size && page_of(at0) == k);
                    } else {
                        let at = choose|at: int| start <= at < start + done && page_of(at) == k;
                        assert(start <= at < start + done + size && page_of(at) == k);
                    }
                }
            }
            done = done + size;
        }
        self.my_pos = start + done as u64;
        Ok(done)
    }
}

impl<B: Backend> CachedBackend<B> {
    /// The numbers of the cached pages.
    fn page_numbers(&self) -> (r: Vec<u64>)
        ensures
            forall|k: u64| self.dirty@.contains_key(k) ==> #[trigger] r@.contains(k),
            forall|i: int| 0 <= i < r@.len() ==> self.dirty@.contains_key(#[trigger] r@[i]),
    {
        let mut r: Vec<u64> = Vec::new();
        let ghost keys = vstd::std_specs::iter::IteratorSpec::remaining(&vstd::std_specs::btree::spec_keys_iter(&self.dirty));
        for k in it: self.dirty.keys()
            invariant
                it.seq() == keys,
                keys.unref().to_set() == self.dirty@.dom(),
                r@.len() == it.index(),
                forall|i: int| 0 <= i < it.index() ==> r@[i] == *#[trigger] keys[i],
        {
            r.push(*k);
        }
        proof {
            assert forall|k: u64| self.dirty@.contains_key(k) implies #[trigger] r@.contains(k) by {
                assert(keys.unref().to_set().contains(k));
                let i = choose|i: int| 0 <= i < keys.len() && #[trigger] keys.unref()[i] == k;
                assert(r@[i] == k);
            }
            assert forall|i: int| 0 <= i < r@.len() implies self.dirty@.contains_key(#[trigger] r@[i]) by {
                assert(keys.unref()[i] == *keys[i]);
                assert(keys.unref().to_set().contains(keys.unref()[i]));
            }
        }
        r
    }

    /// Writes every dirty page back to its place below, marks it clean, makes
    /// the layer below durable, and puts its cursor back where it was. The
    /// cache keeps its pages and the cursor of the cache does not move.
    pub fn real_flush(&mut self) -> (r: Result<(), std::io::Error>)
        requires
            old(self).wf(),
        ensures
            final(self).wf(),
            final(self).pages() == old(self).pages(),
            final(self).pos() == old(self).pos(),
            final(self).len() == old(self).len(),
            final(self).dirty_pages().dom() == old(self).dirty_pages().dom(),
            forall|k: u64| #[trigger]
                final(self).dirty_pages().contains_key(k) && final(self).dirty_pages()[k]
                    ==> old(self).dirty_pages()[k],
            r is Ok ==> forall|k: u64| #[trigger]
                final(self).dirty_pages().contains_key(k) ==> !final(self).dirty_pages()[k],
            r is Ok ==> final(self).inner().cursor() == old(self).inner().cursor(),
            r is Ok ==> final(self).inner().image().len() >= old(self).inner().image().len(),
            r is Ok ==> forall|k: u64, j: int|
                old(self).dirty_pages().contains_key(k) && old(self).dirty_pages()[k] && 0 <= j
                    < PAGE_SIZE as int ==> from_below(
                    final(self).inner().image(),
                    k,
                    j,
                    #[trigger] old(self).pages()[k][j],
                ),
            r is Ok ==> forall|k: u64, j: int|
                !(old(self).dirty_pages().contains_key(k) && old(self).dirty_pages()[k]) && 0 <= j
                    < PAGE_SIZE as int && k as int * PAGE_SIZE as int + j < old(self).inner().image().len()
                    ==> from_below(
                    final(self).inner().image(),
                    k,
                    j,
                    #[trigger] old(self).inner().image()[k as int * PAGE_SIZE as int + j],
                ),
    {
        let origin = match self.backend.stream_position() {
            Ok(p) => p,
            Err(e) => return Err(e),
        };
        let numbers = self.page_numbers();
        let mut i: usize = 0;
        while i < numbers.len()
            invariant
                self.wf(),
                self.cache@ == old(self).cache@,
                self.my_pos == old(self).my_pos,
                self.my_len == old(self).my_len,
                self.dirty@.dom() == old(self).dirty@.dom(),
                forall|k: u64| #[trigger]
                    self.dirty@.contains_key(k) && self.dirty@[k] ==> old(self).dirty@[k],
                forall|j: int| 0 <= j < i ==> !self.dirty@[#[trigger] numbers@[j]],
                forall|k: u64| old(self).dirty@.contains_key(k) ==> #[trigger] numbers@.contains(k),
                forall|j: int| 0 <= j < numbers@.len() ==> old(self).dirty@.contains_key(#[trigger] numbers@[j]),
                origin == old(self).backend.cursor(),
                self.backend.image().len() >= old(self).backend.image().len(),
                forall|k: u64, j: int|
                    self.dirty@.contains_key(k) && old(self).dirty@[k] && !self.dirty@[k] && 0 <= j
                        < PAGE_SIZE as int ==> from_below(
                        self.backend.image(),
                        k,
                        j,
                        #[trigger] self.cache@[k].data@[j],
                    ),
                forall|k: u64, j: int|
                    !(self.dirty@.contains_key(k) && old(self).dirty@[k] && !self.dirty@[k]) && 0 <= j
                        < PAGE_SIZE as int && k as int * PAGE_SIZE as int + j < old(self).backend.image().len()
                        ==> from_below(
                        self.backend.image(),
                        k,
                        j,
                        #[trigger] old(self).backend.image()[k as int * PAGE_SIZE as int + j],
                    ),
            decreases numbers.len() - i,
        {
            let k = numbers[i];
            let is_dirty = match self.dirty.get(&k) {
                Some(d) => *d,
                None => false,
            };
            if is_dirty {
                let ghost before_img = self.backend.image();
                match self.backend.seek(SeekFrom::Start(k * PAGE_SIZE as u64)) {
                    Ok(_) => {},
                    Err(e) => return Err(e),
                }
                proof {
                    self.lemma_pages();
                }
                match self.backend.write_all(self.cache.get(&k).unwrap().data.as_slice()) {
                    Ok(()) => {},
                    Err(e) => return Err(e),
                }
                proof {
                    let img = self.backend.image();
                    let ghost data = self.cache@[k].data@;
                    assert forall|k2: u64, j: int|
                        k2 != k && 0 <= j < PAGE_SIZE as int && k2 as int * PAGE_SIZE as int + j < before_img.len()
                            implies img[k2 as int * PAGE_SIZE as int + j] == #[trigger] before_img[k2 as int * PAGE_SIZE as int + j] by {
                        lemma_pages_apart(k, k2, j);
                    }
                    assert forall|j: int| 0 <= j < PAGE_SIZE as int implies from_below(img, k, j, data[j]) by {
                    }
                }
                self.dirty.insert(k, false);
                proof {
                    assert(self.dirty@.dom() =~= old(self).dirty@.dom());
                }
            }
            i = i + 1;
        }
        match self.backend.real_flush() {
            Ok(()) => {},
            Err(e) => return Err(e),
        }
        match self.backend.seek(SeekFrom::Start(origin)) {
            Ok(_) => {},
            Err(e) => return Err(e),
        }
        proof {
            self.lemma_pages();
            old(self).lemma_pages();
            assert(self.pages() =~= old(self).pages());
            assert forall|k: u64| #[trigger] self.dirty@.contains_key(k) implies !self.dirty@[k] by {
                assert(old(self).dirty@.contains_key(k));
                assert(numbers@.contains(k));
                let j = choose|j: int| 0 <= j < numbers@.len() && numbers@[j] == k;
                assert(!self.dirty@[numbers@[j]]);
            }
        }
        Ok(())
    }
}

} // verus!
