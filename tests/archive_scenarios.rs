use std::cell::RefCell;
use std::collections::BTreeMap;
use std::io::{Cursor, Read, Seek, SeekFrom, Write};
use std::rc::Rc;

use ripunzip::cloneable_seekable_reader::CloneableSeekableReader;
use ripunzip::extract::{decide_entry, EntryInfo, EntryPlan, FilenameFilter, UnzipAllFilter};
use ripunzip::seek::{resolve_seek, SeekPos};
use ripunzip::seekable_http_reader::{AccessPattern, EngineState, ReadStep};
use ripunzip::source::MemorySource;
use zip::write::FileOptions;
use zip::{CompressionMethod, ZipArchive, ZipWriter};

struct UnzipSomeFilter;

impl FilenameFilter for UnzipSomeFilter {
    fn should_unzip(&self, filename: &str) -> bool {
        let file_list = ["test/c.txt", "b.txt"];
        file_list.contains(&filename)
    }
}

fn create_zip(include_a_txt: bool) -> Vec<u8> {
    let mut zip = ZipWriter::new(Cursor::new(Vec::new()));
    zip.add_directory("test/", Default::default()).unwrap();
    let options = FileOptions::default()
        .compression_method(CompressionMethod::Stored)
        .unix_permissions(0o755);
    if include_a_txt {
        zip.start_file("test/a.txt", options).unwrap();
        zip.write_all(b"Contents of A\n").unwrap();
    }
    zip.start_file("b.txt", options).unwrap();
    zip.write_all(b"Contents of B\n").unwrap();
    zip.start_file("test/c.txt", options).unwrap();
    zip.write_all(b"Contents of C\n").unwrap();
    zip.finish().unwrap().into_inner()
}

fn create_big_zip(entries: usize) -> Vec<u8> {
    let mut zip = ZipWriter::new(Cursor::new(Vec::new()));
    let options = FileOptions::default().compression_method(CompressionMethod::Stored);
    for i in 0..entries {
        zip.start_file(format!("dir{}/file{}.bin", i % 3, i), options).unwrap();
        let body: Vec<u8> = (0..1500 + i * 37).map(|j| ((i * 31 + j * 7) % 256) as u8).collect();
        zip.write_all(&body).unwrap();
    }
    zip.finish().unwrap().into_inner()
}

fn seek_pos(pos: SeekFrom) -> SeekPos {
    match pos {
        SeekFrom::Start(n) => SeekPos::Start(n),
        SeekFrom::End(k) => SeekPos::End(k),
        SeekFrom::Current(k) => SeekPos::Current(k),
    }
}

fn bad_seek() -> std::io::Error {
    std::io::Error::new(std::io::ErrorKind::InvalidInput, "bad seek")
}

/// A shared in-memory archive.
struct MemReader(CloneableSeekableReader<MemorySource>);

impl Clone for MemReader {
    fn clone(&self) -> Self {
        MemReader(self.0.clone())
    }
}

impl Read for MemReader {
    fn read(&mut self, buf: &mut [u8]) -> std::io::Result<usize> {
        let bytes = self.0.read(buf.len()).unwrap();
        buf[..bytes.len()].copy_from_slice(&bytes);
        Ok(bytes.len())
    }
}

impl Seek for MemReader {
    fn seek(&mut self, pos: SeekFrom) -> std::io::Result<u64> {
        self.0.seek(seek_pos(pos)).map_err(|_| bad_seek())
    }
}

/// A server holding `remote`, driven by the engine state's steps.
struct SimServer {
    remote: Vec<u8>,
    fetch_at: Option<usize>,
    opens: usize,
    state: EngineState,
}

impl SimServer {
    fn take(&mut self, k: usize) -> Vec<u8> {
        let at = self.fetch_at.unwrap();
        let end = std::cmp::min(at + k, self.remote.len());
        self.fetch_at = Some(end);
        self.remote[at..end].to_vec()
    }

    fn read_at(&mut self, pos: u64, max: usize) -> Vec<u8> {
        loop {
            match self.state.next_step(pos, max) {
                ReadStep::Empty => return Vec::new(),
                ReadStep::Serve => return self.state.serve(pos, max),
                ReadStep::Open(at) => {
                    self.fetch_at = Some(at as usize);
                    self.opens += 1;
                    self.state.opened(at);
                }
                ReadStep::Fetch(k) => {
                    let bytes = self.take(k);
                    self.state.fetched(bytes);
                }
                ReadStep::Discard(k) => {
                    let n = self.take(k).len();
                    self.state.discarded(n);
                }
            }
        }
    }
}

struct HttpReader {
    server: Rc<RefCell<SimServer>>,
    pos: u64,
}

impl Clone for HttpReader {
    fn clone(&self) -> Self {
        HttpReader { server: self.server.clone(), pos: 0 }
    }
}

impl Read for HttpReader {
    fn read(&mut self, buf: &mut [u8]) -> std::io::Result<usize> {
        let bytes = self.server.borrow_mut().read_at(self.pos, buf.len());
        buf[..bytes.len()].copy_from_slice(&bytes);
        self.pos += bytes.len() as u64;
        Ok(bytes.len())
    }
}

impl Seek for HttpReader {
    fn seek(&mut self, pos: SeekFrom) -> std::io::Result<u64> {
        let len = self.server.borrow().state.len();
        self.pos = resolve_seek(self.pos, len, seek_pos(pos)).map_err(|_| bad_seek())?;
        Ok(self.pos)
    }
}

/// Plans every entry in index order and "extracts" into a map from path to
/// contents (`None` for a directory).
fn extract<R: Read + Seek + Clone, F: FilenameFilter>(
    archive: &ZipArchive<R>,
    filter: &F,
    mut skip: impl FnMut(u64),
) -> BTreeMap<String, Option<Vec<u8>>> {
    let mut out = BTreeMap::new();
    for i in 0..archive.len() {
        let mut a = archive.clone();
        let mut file = a.by_index(i).unwrap();
        let info = EntryInfo {
            enclosed_name: file.enclosed_name().map(|p| p.to_string_lossy().into_owned()),
            raw_name: file.name().to_string(),
            compressed_size: file.compressed_size(),
            unix_mode: file.unix_mode(),
        };
        match decide_entry(filter, info) {
            EntryPlan::UnsafePath => panic!("unsafe path"),
            EntryPlan::Skip { skip_bytes } => skip(skip_bytes),
            EntryPlan::Directory { name, .. } => {
                out.insert(name, None);
            }
            EntryPlan::File { name, .. } => {
                let mut bytes = Vec::new();
                file.read_to_end(&mut bytes).unwrap();
                out.insert(name, Some(bytes));
            }
        }
    }
    out
}

fn expected(include_a_txt: bool) -> BTreeMap<String, Option<Vec<u8>>> {
    let mut m = BTreeMap::new();
    if include_a_txt {
        m.insert("test/a.txt".to_string(), Some(b"Contents of A\n".to_vec()));
    }
    m.insert("b.txt".to_string(), Some(b"Contents of B\n".to_vec()));
    m.insert("test/c.txt".to_string(), Some(b"Contents of C\n".to_vec()));
    m
}

fn local_archive(data: Vec<u8>) -> ZipArchive<MemReader> {
    ZipArchive::new(MemReader(CloneableSeekableReader::new(MemorySource::new(data)))).unwrap()
}

fn http_archive(data: Vec<u8>, limit: Option<usize>) -> (Rc<RefCell<SimServer>>, ZipArchive<HttpReader>) {
    let len = data.len() as u64;
    let server = Rc::new(RefCell::new(SimServer {
        remote: data,
        fetch_at: None,
        opens: 0,
        state: EngineState::new(len, limit, AccessPattern::RandomAccess),
    }));
    let archive = ZipArchive::new(HttpReader { server: server.clone(), pos: 0 }).unwrap();
    (server, archive)
}

#[test]
fn local_archive_all_files() {
    let archive = local_archive(create_zip(true));
    let mut got = extract(&archive, &UnzipAllFilter, |_| {});
    assert_eq!(got.remove("test/"), Some(None));
    assert_eq!(got, expected(true));
}

#[test]
fn local_archive_filtered() {
    let archive = local_archive(create_zip(true));
    let got = extract(&archive, &UnzipSomeFilter, |_| {});
    assert_eq!(got, expected(false));
}

#[test]
fn ranged_archive_reads_without_rewinds() {
    for (include_a_txt, filtered) in [(true, false), (true, true), (false, false)] {
        let (server, archive) = http_archive(create_zip(include_a_txt), None);
        server.borrow_mut().state.set_expected_access_pattern(AccessPattern::SequentialIsh);
        let skip_server = server.clone();
        let skip = move |n: u64| skip_server.borrow_mut().state.read_skip_expected(n);
        let mut got = if filtered {
            extract(&archive, &UnzipSomeFilter, skip)
        } else {
            extract(&archive, &UnzipAllFilter, skip)
        };
        got.remove("test/");
        assert_eq!(got, expected(include_a_txt && !filtered));
        assert_eq!(server.borrow().state.get_stats().rewinds, 0);
    }
}

#[test]
fn ranged_archive_tight_readahead_evicts() {
    let data = create_big_zip(40);
    let local = extract(&local_archive(data.clone()), &UnzipAllFilter, |_| {});
    let (server, archive) = http_archive(data, Some(1024));
    server.borrow_mut().state.set_expected_access_pattern(AccessPattern::SequentialIsh);
    let got = extract(&archive, &UnzipAllFilter, |_| {});
    assert_eq!(got, local);
    assert_eq!(got.len(), 40);
    let stats = server.borrow().state.get_stats();
    assert!(stats.cache_shrinks > 0);
    assert!(server.borrow().state.readahead_too_small());
}
