use vstd::prelude::*;

use crate::textutil::str_chars;

verus! {

use vstd::string::StringExecFns;
use vstd::utf8::{decode_utf8, valid_utf8};

/// Why the virtual filesystem could not serve a request.
#[derive(Debug, Clone, PartialEq, Eq)]
pub enum WorldError {
    /// No file is known under the identifier, and no package can supply it.
    NotFound,
    /// The file's bytes are not valid UTF-8 text.
    InvalidUtf8,
}

/// Why a package could not be fetched.
#[derive(Debug, Clone, PartialEq, Eq)]
pub enum PackageFailure {
    /// The archive could not be downloaded.
    NetworkFailed(String),
    /// The archive could not be decompressed or unpacked.
    MalformedArchive(String),
}

/// Relies on String::from_utf8: succeeds exactly on valid UTF-8 and decodes
/// the bytes to their characters.
#[verifier::external_body]
fn utf8_to_string(bytes: &Vec<u8>) -> (r: Option<String>)
    ensures
        r is Some <==> valid_utf8(bytes@),
        r is Some ==> r->0@ == decode_utf8(bytes@),
{
    match std::str::from_utf8(bytes.as_slice()) {
        Ok(s) => Some(s.to_string()),
        Err(_) => None,
    }
}

/// A virtual file: raw bytes, with the decoded text filled in on first use.
pub struct File {
    bytes: Vec<u8>,
    source: Option<String>,
}

impl File {
    /// The decoded text, when present, is exactly the bytes read as UTF-8.
    pub closed spec fn wf(&self) -> bool {
        match self.source {
            Some(s) => valid_utf8(self.bytes@) && s@ == decode_utf8(self.bytes@),
            None => true,
        }
    }

    pub closed spec fn bytes_view(&self) -> Seq<u8> {
        self.bytes@
    }

    pub fn new(bytes: Vec<u8>) -> (f: File)
        ensures
            f.wf(),
            f.bytes_view() == bytes@,
    {
        File { bytes, source: None }
    }

    pub fn bytes(&self) -> (r: &Vec<u8>)
        ensures
            r@ == self.bytes_view(),
    {
        &self.bytes
    }

    /// The file's text, decoded on first access and remembered thereafter.
    pub fn source(&mut self) -> (r: Result<String, WorldError>)
        requires
            old(self).wf(),
        ensures
            final(self).wf(),
            final(self).bytes_view() == old(self).bytes_view(),
            match r {
                Ok(s) => valid_utf8(old(self).bytes_view()) && s@ == decode_utf8(
                    old(self).bytes_view(),
                ),
                Err(e) => e == WorldError::InvalidUtf8 && !valid_utf8(old(self).bytes_view()),
            },
    {
        match &self.source {
            Some(s) => Ok(s.clone()),
            None => {
                match utf8_to_string(&self.bytes) {
                    Some(s) => {
                        let out = s.clone();
                        self.source = Some(s);
                        Ok(out)
                    },
                    None => Err(WorldError::InvalidUtf8),
                }
            },
        }
    }
}

/// The map denoted by the file table: canonical identifier text to bytes.
pub open spec fn file_map(s: Seq<(String, File)>) -> Map<Seq<char>, Seq<u8>>
    decreases s.len(),
{
    if s.len() == 0 {
        Map::empty()
    } else {
        file_map(s.drop_last()).insert(s.last().0@, s.last().1.bytes_view())
    }
}

pub open spec fn distinct_file_keys(s: Seq<(String, File)>) -> bool {
    forall|i: int, j: int| 0 <= i < j < s.len() ==> s[i].0@ != s[j].0@
}

proof fn lemma_file_map_absent(s: Seq<(String, File)>, k: Seq<char>)
    requires
        forall|i: int| 0 <= i < s.len() ==> s[i].0@ != k,
    ensures
        !file_map(s).contains_key(k),
    decreases s.len(),
{
    if s.len() > 0 {
        assert(forall|i: int|
            0 <= i < s.drop_last().len() ==> s.drop_last()[i] == s[i] && s[i].0@ != k);
        lemma_file_map_absent(s.drop_last(), k);
    }
}

proof fn lemma_file_map_present(s: Seq<(String, File)>, j: int)
    requires
        0 <= j < s.len(),
        forall|i: int| j < i < s.len() ==> s[i].0@ != s[j].0@,
    ensures
        file_map(s).contains_key(s[j].0@),
        file_map(s)[s[j].0@] == s[j].1.bytes_view(),
    decreases s.len(),
{
    if j == s.len() - 1 {
    } else {
        assert(s.drop_last()[j] == s[j]);
        lemma_file_map_present(s.drop_last(), j);
    }
}

proof fn lemma_file_map_update_same_bytes(s: Seq<(String, File)>, j: int, e: (String, File))
    requires
        0 <= j < s.len(),
        e.0@ == s[j].0@,
        e.1.bytes_view() == s[j].1.bytes_view(),
    ensures
        file_map(s.update(j, e)) == file_map(s),
    decreases s.len(),
{
    let t = s.update(j, e);
    if j == s.len() - 1 {
        assert(t.drop_last() =~= s.drop_last());
        assert(file_map(t) =~= file_map(s));
    } else {
        assert(t.drop_last() =~= s.drop_last().update(j, e));
        assert(s.drop_last()[j] == s[j]);
        lemma_file_map_update_same_bytes(s.drop_last(), j, e);
        assert(t.last() == s.last());
        assert(file_map(t) =~= file_map(s));
    }
}

/// The shared state one long-lived compiler keeps across renders: the
/// package cache location and the table of virtual files, each loaded at
/// most once.
pub struct Compiler {
    cache_dir: String,
    files: Vec<(String, File)>,
}

impl Compiler {
    pub closed spec fn files_seq(&self) -> Seq<(String, File)> {
        self.files@
    }

    /// The package cache location.
    pub closed spec fn dir(&self) -> Seq<char> {
        self.cache_dir@
    }

    pub fn cache_dir(&self) -> (r: &String)
        ensures
            r@ == self.dir(),
    {
        &self.cache_dir
    }

    /// The file table as a map from identifier text to bytes.
    pub closed spec fn fmap(&self) -> Map<Seq<char>, Seq<u8>> {
        file_map(self.files@)
    }

    pub closed spec fn wf(&self) -> bool {
        &&& distinct_file_keys(self.files@)
        &&& forall|i: int| 0 <= i < self.files@.len() ==> (#[trigger] self.files@[i]).1.wf()
    }

    pub fn new(cache_dir: String) -> (c: Compiler)
        ensures
            c.wf(),
            c.fmap() == Map::<Seq<char>, Seq<u8>>::empty(),
            c.dir() == cache_dir@,
    {
        let files: Vec<(String, File)> = Vec::new();
        Compiler { cache_dir: cache_dir, files: files }
    }

    fn find_file(&self, key: &str) -> (r: Option<usize>)
        ensures
            match r {
                Some(j) => {
                    &&& j < self.files@.len()
                    &&& self.files@[j as int].0@ == key@
                    &&& forall|i: int| j < i < self.files@.len() ==> self.files@[i].0@ != key@
                },
                None => forall|i: int| 0 <= i < self.files@.len() ==> self.files@[i].0@ != key@,
            },
    {
        let n = self.files.len();
        let mut i: usize = n;
        while i > 0
            invariant
                i <= n,
                n == self.files@.len(),
                forall|j: int| i <= j < n ==> (#[trigger] self.files@[j]).0@ != key@,
            decreases i,
        {
            i = i - 1;
            if str_eq(self.files[i].0.as_str(), key) {
                return Some(i);
            }
        }
        None
    }

    /// The raw bytes of an already-loaded file.
    pub fn lookup_bytes(&self, key: &str) -> (r: Option<&Vec<u8>>)
        requires
            self.wf(),
        ensures
            match r {
                Some(b) => self.fmap().contains_key(key@) && b@ == self.fmap()[key@],
                None => !self.fmap().contains_key(key@),
            },
    {
        match self.find_file(key) {
            Some(j) => {
                proof {
                    lemma_file_map_present(self.files@, j as int);
                }
                Some(self.files[j].1.bytes())
            },
            None => {
                proof {
                    lemma_file_map_absent(self.files@, key@);
                }
                None
            },
        }
    }

    /// The text of an already-loaded file, decoded at most once.
    pub fn lookup_source(&mut self, key: &str) -> (r: Result<Option<String>, WorldError>)
        requires
            old(self).wf(),
        ensures
            final(self).wf(),
            final(self).fmap() == old(self).fmap(),
            final(self).dir() == old(self).dir(),
            match r {
                Ok(Some(s)) => old(self).fmap().contains_key(key@) && valid_utf8(
                    old(self).fmap()[key@],
                ) && s@ == decode_utf8(old(self).fmap()[key@]),
                Ok(None) => !old(self).fmap().contains_key(key@),
                Err(e) => e == WorldError::InvalidUtf8 && old(self).fmap().contains_key(key@)
                    && !valid_utf8(old(self).fmap()[key@]),
            },
    {
        match self.find_file(key) {
            Some(j) => {
                proof {
                    lemma_file_map_present(self.files@, j as int);
                }
                let ghost pre = self.files@;
                let entry = &mut self.files[j];
                // borrow the pair mutably to decode and remember the text
                let r = entry.1.source();
                proof {
                    assert(self.files@ =~= pre.update(
                        j as int,
                        (pre[j as int].0, self.files@[j as int].1),
                    ));
                    lemma_file_map_update_same_bytes(
                        pre,
                        j as int,
                        (pre[j as int].0, self.files@[j as int].1),
                    );
                }
                match r {
                    Ok(s) => Ok(Some(s)),
                    Err(e) => Err(e),
                }
            },
            None => {
                proof {
                    lemma_file_map_absent(self.files@, key@);
                }
                Ok(None)
            },
        }
    }

    /// Resolves a file that names no package: only the table itself can
    /// supply it, so an unknown identifier is not found anywhere.
    pub fn resolve_file(&mut self, key: &str) -> (r: Result<String, WorldError>)
        requires
            old(self).wf(),
        ensures
            final(self).wf(),
            final(self).fmap() == old(self).fmap(),
            final(self).dir() == old(self).dir(),
            match r {
                Ok(s) => old(self).fmap().contains_key(key@) && valid_utf8(
                    old(self).fmap()[key@],
                ) && s@ == decode_utf8(old(self).fmap()[key@]),
                Err(WorldError::NotFound) => !old(self).fmap().contains_key(key@),
                Err(WorldError::InvalidUtf8) => old(self).fmap().contains_key(key@)
                    && !valid_utf8(old(self).fmap()[key@]),
            },
    {
        match self.lookup_source(key) {
            Ok(Some(s)) => Ok(s),
            Ok(None) => Err(WorldError::NotFound),
            Err(e) => Err(e),
        }
    }

    /// Remembers a freshly read file; an identifier already present keeps
    /// its first contents.
    pub fn insert_file(&mut self, key: String, bytes: Vec<u8>)
        requires
            old(self).wf(),
        ensures
            final(self).wf(),
            final(self).dir() == old(self).dir(),
            final(self).fmap() == if old(self).fmap().contains_key(key@) {
                old(self).fmap()
            } else {
                old(self).fmap().insert(key@, bytes@)
            },
    {
        match self.find_file(key.as_str()) {
            Some(j) => {
                proof {
                    lemma_file_map_present(self.files@, j as int);
                }
            },
            None => {
                proof {
                    lemma_file_map_absent(self.files@, key@);
                }
                let ghost s0 = self.files@;
                let ghost kview = key@;
                let f = File::new(bytes);
                let ghost fb = f.bytes_view();
                self.files.push((key, f));
                proof {
                    assert(self.files@.drop_last() =~= s0);
                    assert(self.files@.last().0@ == kview);
                    assert(self.files@.last().1.bytes_view() == fb);
                    assert(forall|i: int| 0 <= i < s0.len() ==> self.files@[i] == s0[i]);
                    assert(file_map(self.files@) == file_map(s0).insert(kview, fb));
                }
            },
        }
    }
}

/// Compares two strings character for character.
fn str_eq(a: &str, b: &str) -> (r: bool)
    ensures
        r == (a@ == b@),
{
    let av = str_chars(a);
    let bv = str_chars(b);
    let n = av.len();
    if n != bv.len() {
        return false;
    }
    let mut i: usize = 0;
    while i < n
        invariant
            i <= n,
            n == av@.len() == bv@.len(),
            av@ == a@,
            bv@ == b@,
            forall|j: int| 0 <= j < i ==> av@[j] == bv@[j],
        decreases n - i,
    {
        if av[i] != bv[i] {
            return false;
        }
        i += 1;
    }
    proof {
        assert(a@ =~= b@);
    }
    true
}

/// The directory one package occupies below the cache root.
pub fn package_subdir(namespace: &str, name: &str, version: &str) -> (r: String)
    ensures
        r@ == namespace@ + "/"@ + name@ + "/"@ + version@,
{
    let mut out = String::new();
    out.append(namespace);
    out.append("/");
    out.append(name);
    out.append("/");
    out.append(version);
    out
}

/// The well-known location a package archive downloads from.
pub fn package_url(namespace: &str, name: &str, version: &str) -> (r: String)
    ensures
        r@ == "https://packages.typst.org/"@ + namespace@ + "/"@ + name@ + "-"@ + version@
            + ".tar.gz"@,
{
    let mut out = String::new();
    out.append("https://packages.typst.org/");
    out.append(namespace);
    out.append("/");
    out.append(name);
    out.append("-");
    out.append(version);
    out.append(".tar.gz");
    out
}

/// What flate2's GzDecoder yields for given compressed bytes; decompression
/// is fixed by the bytes alone, and fails exactly on malformed input.
pub uninterp spec fn gunzip_of(data: Seq<u8>) -> Option<Seq<u8>>;

/// Relies on flate2::write::GzDecoder: decompresses wholly in memory; a
/// pure function of the compressed bytes.
#[verifier::external_body]
fn gunzip(data: &Vec<u8>) -> (r: Result<Vec<u8>, String>)
    ensures
        r is Ok <==> gunzip_of(data@) is Some,
        r is Ok ==> r->Ok_0@ == gunzip_of(data@)->0,
{
    let mut decoder = flate2::write::GzDecoder::new(Vec::new());
    if let Err(e) = std::io::Write::write_all(&mut decoder, data.as_slice()) {
        return Err(e.to_string());
    }
    match decoder.finish() {
        Ok(out) => Ok(out),
        Err(e) => Err(e.to_string()),
    }
}

/// Decompresses a downloaded package archive into the raw tar bytes.
pub fn decompress_package(data: &Vec<u8>) -> (r: Result<Vec<u8>, PackageFailure>)
    ensures
        r is Ok <==> gunzip_of(data@) is Some,
        match r {
            Ok(tar_bytes) => tar_bytes@ == gunzip_of(data@)->0,
            Err(e) => e is MalformedArchive,
        },
{
    match gunzip(data) {
        Ok(out) => Ok(out),
        Err(e) => Err(PackageFailure::MalformedArchive(e)),
    }
}

/// What the package installer must do next.
#[derive(Debug)]
pub enum FetchAction {
    /// Unpack these raw tar bytes into the target directory.
    Unpack(Vec<u8>),
    /// Remove the target directory, then surface the error: the directory
    /// was created but holds a partial extraction.
    CleanupAndFail(PackageFailure),
    /// Surface the error; the target directory was never created.
    Fail(PackageFailure),
}

/// Decides what follows a finished download.  A network error fails before
/// anything exists on disk; a body that does not decompress fails while the
/// target directory still does not exist; sound bytes go on to the
/// unpacker, which is what first creates the directory.
pub fn after_download(result: Result<Vec<u8>, String>) -> (r: FetchAction)
    ensures
        match result {
            Err(e) => r == FetchAction::Fail(PackageFailure::NetworkFailed(e)),
            Ok(body) => match gunzip_of(body@) {
                Some(tar_bytes) => r matches FetchAction::Unpack(t) && t@ == tar_bytes,
                None => r matches FetchAction::Fail(PackageFailure::MalformedArchive(_)),
            },
        },
{
    match result {
        Err(e) => FetchAction::Fail(PackageFailure::NetworkFailed(e)),
        Ok(body) => match decompress_package(&body) {
            Ok(tar_bytes) => FetchAction::Unpack(tar_bytes),
            Err(f) => FetchAction::Fail(f),
        },
    }
}

/// Decides what follows the unpacker.  Any unpack failure removes the
/// directory the unpacker created, so a retry always starts from a clean
/// state; only a fully unpacked package leaves a directory behind.
pub fn after_unpack(result: Result<(), String>) -> (r: Option<FetchAction>)
    ensures
        match result {
            Ok(_) => r is None,
            Err(e) => r == Some(
                FetchAction::CleanupAndFail(PackageFailure::MalformedArchive(e)),
            ),
        },
{
    match result {
        Ok(_) => None,
        Err(e) => Some(FetchAction::CleanupAndFail(PackageFailure::MalformedArchive(e))),
    }
}

/// What ttf_parser::fonts_in_collection reads from a font buffer: the face
/// count of a collection header, or nothing for a single-face font; a pure
/// function of the bytes.
pub uninterp spec fn ttf_collection_faces(data: Seq<u8>) -> Option<u32>;

/// Relies on ttf_parser::fonts_in_collection: reads the face count wholly
/// from the given bytes.
#[verifier::external_body]
fn collection_face_count(data: &Vec<u8>) -> (r: Option<u32>)
    ensures
        r == ttf_collection_faces(data@),
{
    ttf_parser::fonts_in_collection(data.as_slice())
}

/// How many font faces a buffer holds: what its collection header says, or
/// one for a plain single-face font.
pub fn face_count(data: &Vec<u8>) -> (n: u32)
    ensures
        n == (match ttf_collection_faces(data@) {
            Some(k) => k,
            None => 1u32,
        }),
{
    match collection_face_count(data) {
        Some(k) => k,
        None => 1,
    }
}

} // verus!
