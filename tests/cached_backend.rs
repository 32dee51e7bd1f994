use unico::backend::{Backend, SeekFrom};
use unico::cached::CachedBackend;
use unico::page::PAGE_SIZE;
use unico::rw_count::RWCount;

/// An image held in memory.
struct Mem {
    data: Vec<u8>,
    pos: u64,
}

impl Mem {
    fn new(data: Vec<u8>) -> Self {
        Mem { data, pos: 0 }
    }
}

fn short() -> std::io::Error {
    std::io::Error::from(std::io::ErrorKind::UnexpectedEof)
}

impl Backend for Mem {
    fn read(&mut self, buf: &mut Vec<u8>) -> Result<usize, std::io::Error> {
        let at = (self.pos as usize).min(self.data.len());
        let n = buf.len().min(self.data.len() - at);
        buf[..n].copy_from_slice(&self.data[at..at + n]);
        self.pos += n as u64;
        Ok(n)
    }

    fn read_exact(&mut self, buf: &mut Vec<u8>) -> Result<(), std::io::Error> {
        let at = self.pos as usize;
        if at + buf.len() > self.data.len() {
            return Err(short());
        }
        let n = buf.len();
        buf.copy_from_slice(&self.data[at..at + n]);
        self.pos += n as u64;
        Ok(())
    }

    fn write(&mut self, buf: &[u8]) -> Result<usize, std::io::Error> {
        self.write_all(buf).map(|_| buf.len())
    }

    fn write_all(&mut self, buf: &[u8]) -> Result<(), std::io::Error> {
        let at = self.pos as usize;
        if self.data.len() < at + buf.len() {
            self.data.resize(at + buf.len(), 0);
        }
        self.data[at..at + buf.len()].copy_from_slice(buf);
        self.pos += buf.len() as u64;
        Ok(())
    }

    fn flush(&mut self) -> Result<(), std::io::Error> {
        Ok(())
    }

    fn seek(&mut self, pos: SeekFrom) -> Result<u64, std::io::Error> {
        self.pos = match pos {
            SeekFrom::Start(p) => p,
            SeekFrom::End(d) => (self.data.len() as u64).wrapping_add_signed(d),
            SeekFrom::Current(d) => self.pos.wrapping_add_signed(d),
        };
        Ok(self.pos)
    }

    fn stream_position(&mut self) -> Result<u64, std::io::Error> {
        Ok(self.pos)
    }
}

fn image(pages: usize) -> Vec<u8> {
    (0..pages * PAGE_SIZE).map(|i| (i % 251) as u8).collect()
}

#[test]
fn read_returns_the_image_bytes() {
    let img = image(2);
    let mut c = CachedBackend::new_with_len_known(Mem::new(img.clone()), img.len() as u64);
    c.seek(SeekFrom::Start(PAGE_SIZE as u64 - 3)).unwrap();
    let mut buf = vec![0u8; 6];
    assert_eq!(c.read(&mut buf).unwrap(), 6);
    assert_eq!(buf, img[PAGE_SIZE - 3..PAGE_SIZE + 3].to_vec());
    assert_eq!(c.stream_position().unwrap(), PAGE_SIZE as u64 + 3);
}

#[test]
fn read_past_the_image_fails_and_keeps_the_cursor() {
    let img = image(1);
    let mut c = CachedBackend::new_with_len_known(Mem::new(img), PAGE_SIZE as u64);
    c.seek(SeekFrom::Start(PAGE_SIZE as u64 + 1)).unwrap();
    let mut buf = vec![0u8; 4];
    assert!(c.read(&mut buf).is_err());
    assert_eq!(c.stream_position().unwrap(), PAGE_SIZE as u64 + 1);
}

#[test]
fn writes_stay_in_the_cache_until_real_flush() {
    let img = image(2);
    let mut c = CachedBackend::new_with_len_known(Mem::new(img.clone()), img.len() as u64);
    c.seek(SeekFrom::Start(PAGE_SIZE as u64 - 2)).unwrap();
    assert_eq!(c.write(&[9, 9, 9, 9]).unwrap(), 4);
    assert_eq!(c.get_ref().data, img);

    c.seek(SeekFrom::Start(PAGE_SIZE as u64 - 4)).unwrap();
    let mut buf = vec![0u8; 8];
    c.read(&mut buf).unwrap();
    let mut expected = img[PAGE_SIZE - 4..PAGE_SIZE + 4].to_vec();
    expected[2..6].copy_from_slice(&[9, 9, 9, 9]);
    assert_eq!(buf, expected);

    c.real_flush().unwrap();
    let mut flushed = img.clone();
    flushed[PAGE_SIZE - 2..PAGE_SIZE + 2].copy_from_slice(&[9, 9, 9, 9]);
    assert_eq!(c.get_ref().data, flushed);
    assert_eq!(c.stream_position().unwrap(), PAGE_SIZE as u64 + 4);
}

#[test]
fn full_page_write_needs_nothing_below() {
    let mut c = CachedBackend::new_with_len_known(Mem::new(Vec::new()), 2 * PAGE_SIZE as u64);
    let page: Vec<u8> = (0..2 * PAGE_SIZE).map(|i| (i % 7) as u8).collect();
    assert_eq!(c.write(&page).unwrap(), 2 * PAGE_SIZE);
    c.seek(SeekFrom::Start(5)).unwrap();
    let mut buf = vec![0u8; 3];
    c.read(&mut buf).unwrap();
    assert_eq!(buf, vec![5, 6, 0]);
    c.real_flush().unwrap();
    assert_eq!(c.get_ref().data, page);
}

#[test]
fn partial_write_to_a_missing_page_fails() {
    let mut c = CachedBackend::new_with_len_known(Mem::new(Vec::new()), 10);
    assert!(c.write(&[1, 2, 3]).is_err());
    assert_eq!(c.stream_position().unwrap(), 0);
}

#[test]
fn seek_from_end_and_current_wraps() {
    let mut c = CachedBackend::new_with_len_known(Mem::new(Vec::new()), 100);
    assert_eq!(c.seek(SeekFrom::End(-10)).unwrap(), 90);
    assert_eq!(c.seek(SeekFrom::Current(5)).unwrap(), 95);
    assert_eq!(c.seek(SeekFrom::Start(0)).unwrap(), 0);
    assert_eq!(c.seek(SeekFrom::Current(-1)).unwrap(), u64::MAX);
    assert!(c.flush().is_ok());
}

#[test]
fn rw_count_counts_each_kind() {
    let mut r = RWCount::new(Mem::new(image(1)));
    let mut buf = vec![0u8; 4];
    r.read(&mut buf).unwrap();
    r.read(&mut buf).unwrap();
    r.write(&[1]).unwrap();
    r.seek(SeekFrom::Start(0)).unwrap();
    r.read_exact(&mut buf).unwrap();
    assert_eq!((r.read_count, r.write_count, r.seek_count), (3, 1, 1));
    assert_eq!(buf, vec![0, 1, 2, 3]);
}

#[test]
fn cache_over_counter_reads_each_page_once() {
    let img = image(1);
    let mut c = CachedBackend::new_with_len_known(RWCount::new(Mem::new(img.clone())), PAGE_SIZE as u64);
    let mut buf = vec![0u8; 16];
    for _ in 0..5 {
        c.seek(SeekFrom::Start(100)).unwrap();
        c.read(&mut buf).unwrap();
    }
    assert_eq!(buf, img[100..116].to_vec());
    assert_eq!(c.get_ref().seek_count, 1);
    assert_eq!(c.get_ref().read_count, 1);
    assert_eq!(c.get_ref().write_count, 0);
}

#[test]
fn new_finds_the_length_and_rewinds() {
    let mut c = CachedBackend::new(Mem::new(vec![7u8; 100])).ok().unwrap();
    assert_eq!(c.stream_position().unwrap(), 0);
    assert_eq!(c.get_ref().pos, 0);
    assert_eq!(c.seek(SeekFrom::End(-10)).unwrap(), 90);
}
