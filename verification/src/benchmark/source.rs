//! Pinned upstream sources of benchmark fixtures: exact revisions, content
//! digests, and the checks that a fixture matches its upstream file.

use vstd::prelude::*;
use crate::analysis::serde_names::{find, find_exec};
use crate::benchmark::model::{BenchmarkCase, FixtureFileV1, SpecimenV1};
use crate::text::{
    cat2, cat3, char_is_white_space, chars_of, is_hex_of_len, lower_text, owned, push_char,
    push_str, string_of, text_eq, text_is_hex_of_len, to_lower, trim, trim_chars,
};

verus! {

/// Why a source could not be read, fetched or matched.
#[derive(Debug, Clone, PartialEq, Eq)]
pub enum SourceError {
    Io(String),
    Git(String),
    InvalidRevision(String),
    RemoteMismatch(String),
}

pub open spec fn source_error_text(e: SourceError) -> Seq<char> {
    match e {
        SourceError::Io(m) => "I/O error: "@ + m@,
        SourceError::Git(m) => "Git error: "@ + m@,
        SourceError::InvalidRevision(m) => "invalid revision: "@ + m@,
        SourceError::RemoteMismatch(m) => "source mismatch: "@ + m@,
    }
}

impl SourceError {
    /// The human-readable description of the error.
    pub fn message(&self) -> (r: String)
        ensures
            r@ == source_error_text(*self),
    {
        match self {
            SourceError::Io(m) => cat2("I/O error: ", m.as_str()),
            SourceError::Git(m) => cat2("Git error: ", m.as_str()),
            SourceError::InvalidRevision(m) => cat2("invalid revision: ", m.as_str()),
            SourceError::RemoteMismatch(m) => cat2("source mismatch: ", m.as_str()),
        }
    }
}

/// Fetches the bytes of a file of a repository at an exact revision.
pub trait SourceFetcher {
    fn fetch(&self, repository: &str, revision: &str, path: &str) -> Result<Vec<u8>, SourceError>;
}

/// Exactly 40 hexadecimal characters.
pub open spec fn exact_revision(value: Seq<char>) -> bool {
    is_hex_of_len(value, 40)
}

/// Refuses anything but a full commit id.
pub fn require_exact_revision(value: &str) -> (r: Result<(), SourceError>)
    ensures
        r is Ok <==> exact_revision(value@),
        r matches Err(e) ==> e == SourceError::InvalidRevision(e->InvalidRevision_0) && e->InvalidRevision_0@
            == "revision must be exactly 40 hexadecimal characters"@,
{
    if text_is_hex_of_len(value, 40) {
        Ok(())
    } else {
        Err(SourceError::InvalidRevision(owned("revision must be exactly 40 hexadecimal characters")))
    }
}

/// The SHA-256 digest of some bytes.
pub uninterp spec fn sha256_of(bytes: Seq<u8>) -> Seq<u8>;

/// `sha2::Sha256::digest`: the 32-byte SHA-256 digest of the input.
#[verifier::external_body]
fn sha256_digest(bytes: &[u8]) -> (r: Vec<u8>)
    ensures
        r@ == sha256_of(bytes@),
        r@.len() == 32,
{
    <sha2::Sha256 as sha2::Digest>::digest(bytes).to_vec()
}

pub open spec fn hex_digit(d: u8) -> char {
    if d < 10 {
        (('0' as u8) + d) as char
    } else {
        (('a' as u8) + (d - 10)) as char
    }
}

/// Lowercase hexadecimal, two digits per byte.
pub open spec fn hex_text(bytes: Seq<u8>) -> Seq<char>
    decreases bytes.len(),
{
    if bytes.len() == 0 {
        Seq::empty()
    } else {
        hex_text(bytes.drop_last()) + seq![hex_digit(bytes.last() / 16), hex_digit(bytes.last() % 16)]
    }
}

fn hex_digit_of(d: u8) -> (c: char)
    requires
        d < 16,
    ensures
        c == hex_digit(d),
{
    if d < 10 {
        (('0' as u8) + d) as char
    } else {
        (('a' as u8) + (d - 10)) as char
    }
}

/// The lowercase hexadecimal text of some bytes.
pub fn hex_lower(bytes: &[u8]) -> (r: String)
    ensures
        r@ == hex_text(bytes@),
{
    let mut r = String::new();
    let mut i: usize = 0;
    while i < bytes.len()
        invariant
            i <= bytes.len(),
            r@ == hex_text(bytes@.take(i as int)),
        decreases bytes.len() - i,
    {
        let b = bytes[i];
        push_char(&mut r, hex_digit_of(b / 16));
        push_char(&mut r, hex_digit_of(b % 16));
        assert(bytes@.take(i + 1).drop_last() =~= bytes@.take(i as int));
        assert(r@ =~= hex_text(bytes@.take(i + 1)));
        i = i + 1;
    }
    assert(bytes@.take(bytes.len() as int) =~= bytes@);
    r
}

/// The SHA-256 digest of some bytes as lowercase hexadecimal.
pub fn sha256(bytes: &[u8]) -> (r: String)
    ensures
        r@ == hex_text(sha256_of(bytes@)),
        r@.len() == 64,
{
    let digest = sha256_digest(bytes);
    let r = hex_lower(digest.as_slice());
    proof {
        lemma_hex_len(digest@);
    }
    r
}

proof fn lemma_hex_len(b: Seq<u8>)
    ensures
        hex_text(b).len() == 2 * b.len(),
    decreases b.len(),
{
    if b.len() > 0 {
        lemma_hex_len(b.drop_last());
    }
}

/// A repository given as `owner/name` is fetched from GitHub; a URL or an SSH
/// address is used as it is.
pub open spec fn repository_url_spec(repository: Seq<char>) -> Seq<char> {
    if find(repository, "://"@) is Some || crate::text::starts_with(repository, "git@"@) {
        repository
    } else {
        "https://github.com/"@ + repository + ".git"@
    }
}

pub fn repository_url(repository: &str) -> (r: String)
    ensures
        r@ == repository_url_spec(repository@),
{
    let chars = chars_of(repository);
    let sep = chars_of("://");
    if find_exec(chars.as_slice(), sep.as_slice()).is_some() || crate::text::text_starts_with(repository, "git@") {
        owned(repository)
    } else {
        cat3("https://github.com/", repository, ".git")
    }
}

/// `String::from_utf8_lossy` of some bytes.
pub uninterp spec fn utf8_lossy(bytes: Seq<u8>) -> Seq<char>;

/// `String::from_utf8_lossy`: the bytes decoded as UTF-8, invalid sequences
/// replaced by U+FFFD. The result is named `utf8_lossy`; of valid UTF-8 it is
/// the exact decoding, as std documents.
#[verifier::external_body]
pub(crate) fn lossy_text(bytes: &[u8]) -> (r: String)
    ensures
        r@ == utf8_lossy(bytes@),
        vstd::utf8::valid_utf8(bytes@) ==> r@ == vstd::utf8::decode_utf8(bytes@),
{
    String::from_utf8_lossy(bytes).into_owned()
}

/// What a failed git command said: its trimmed standard error, or `no stderr`.
pub open spec fn stderr_text(stderr: Seq<u8>) -> Seq<char> {
    if trim(utf8_lossy(stderr)).len() == 0 {
        "no stderr"@
    } else {
        trim(utf8_lossy(stderr))
    }
}

pub fn stderr_message(stderr: &[u8]) -> (r: String)
    ensures
        r@ == stderr_text(stderr@),
{
    let text = lossy_text(stderr);
    let chars = chars_of(text.as_str());
    let trimmed = trim_chars(chars.as_slice());
    if trimmed.len() == 0 {
        owned("no stderr")
    } else {
        string_of(trimmed.as_slice())
    }
}

/// The committed bytes match the specimen's digest.
pub open spec fn local_matches(file: FixtureFileV1, local: Seq<u8>) -> bool {
    hex_text(sha256_of(local)) == lower_text(file.sha256@)
}

/// The upstream bytes equal the committed bytes and match the specimen's digest.
pub open spec fn remote_matches(file: FixtureFileV1, local: Seq<u8>, remote: Seq<u8>) -> bool {
    remote == local && hex_text(sha256_of(remote)) == lower_text(file.sha256@)
}

/// How a mismatch of the upstream file is reported.
pub open spec fn differs_text(case_id: Seq<char>, repository: Seq<char>, revision: Seq<char>, file: FixtureFileV1) -> Seq<char> {
    case_id + ":"@ + file.fixture_path@ + " differs from "@ + repository + "@"@ + revision + ":"@ + file.upstream_path@
}

fn bytes_eq(a: &Vec<u8>, b: &Vec<u8>) -> (r: bool)
    ensures
        r == (a@ == b@),
{
    if a.len() != b.len() {
        return false;
    }
    let mut i: usize = 0;
    while i < a.len()
        invariant
            i <= a.len(),
            a.len() == b.len(),
            forall|k: int| 0 <= k < i ==> a@[k] == b@[k],
        decreases a.len() - i,
    {
        if a[i] != b[i] {
            return false;
        }
        i = i + 1;
    }
    assert(a@ =~= b@);
    true
}

/// Checks one committed fixture file; `remote` is what the fetcher returned
/// for its upstream path.
pub fn check_fixture_file(
    case_id: &str,
    repository: &str,
    revision: &str,
    file: &FixtureFileV1,
    local: &Vec<u8>,
    remote: Result<Vec<u8>, SourceError>,
) -> (r: Result<(), SourceError>)
    ensures
        r is Ok <==> (local_matches(*file, local@) && (remote matches Ok(b) && remote_matches(*file, local@, b@))),
        !local_matches(*file, local@) ==> (r matches Err(SourceError::RemoteMismatch(m))
            && m@ == case_id@ + " committed fixture digest does not match specimen"@),
        local_matches(*file, local@) ==> (remote matches Err(e) ==> r == Err::<(), SourceError>(e)),
        local_matches(*file, local@) ==> ((remote matches Ok(b) && !remote_matches(*file, local@, b@)) ==> (r matches Err(
            SourceError::RemoteMismatch(m),
        ) && m@ == differs_text(case_id@, repository@, revision@, *file))),
{
    let expected = to_lower(chars_of(file.sha256.as_str()).as_slice());
    let local_digest = sha256(local.as_slice());
    let local_chars = chars_of(local_digest.as_str());
    if !crate::text::chars_eq(local_chars.as_slice(), expected.as_slice()) {
        return Err(SourceError::RemoteMismatch(cat2(case_id, " committed fixture digest does not match specimen")));
    }
    let bytes = match remote {
        Ok(b) => b,
        Err(e) => {
            return Err(e);
        },
    };
    let remote_digest = sha256(bytes.as_slice());
    let remote_chars = chars_of(remote_digest.as_str());
    if !bytes_eq(&bytes, local) || !crate::text::chars_eq(remote_chars.as_slice(), expected.as_slice()) {
        let mut m = owned(case_id);
        push_str(&mut m, ":");
        push_str(&mut m, file.fixture_path.as_str());
        push_str(&mut m, " differs from ");
        push_str(&mut m, repository);
        push_str(&mut m, "@");
        push_str(&mut m, revision);
        push_str(&mut m, ":");
        push_str(&mut m, file.upstream_path.as_str());
        return Err(SourceError::RemoteMismatch(m));
    }
    Ok(())
}

/// One request to a fetcher: a file of a repository at a revision.
pub struct FetchRequest {
    pub repository: String,
    pub revision: String,
    pub path: String,
}

/// The requests that fetch every file of a case at a revision: one per file, in
/// file order, each for the case's upstream repository and the file's upstream path.
pub open spec fn requests_for(r: Seq<FetchRequest>, case: BenchmarkCase, revision: Seq<char>) -> bool {
    &&& r.len() == case.specimen.files@.len()
    &&& forall|f: int| 0 <= f < r.len() ==> {
        &&& (#[trigger] r[f]).repository@ == case.specimen.upstream.repository@
        &&& r[f].revision@ == revision
        &&& r[f].path@ == case.specimen.files@[f].upstream_path@
    }
}

/// The fetch requests for every file of a case at a revision.
pub fn fetch_requests(case: &BenchmarkCase, revision: &str) -> (r: Vec<FetchRequest>)
    ensures
        requests_for(r@, *case, revision@),
{
    let mut r: Vec<FetchRequest> = Vec::new();
    let mut f: usize = 0;
    while f < case.specimen.files.len()
        invariant
            f <= case.specimen.files@.len(),
            r@.len() == f,
            forall|g: int| 0 <= g < f ==> {
                &&& (#[trigger] r@[g]).repository@ == case.specimen.upstream.repository@
                &&& r@[g].revision@ == revision@
                &&& r@[g].path@ == case.specimen.files@[g].upstream_path@
            },
        decreases case.specimen.files.len() - f,
    {
        r.push(FetchRequest {
            repository: case.specimen.upstream.repository.clone(),
            revision: owned(revision),
            path: case.specimen.files[f].upstream_path.clone(),
        });
        f = f + 1;
    }
    r
}

/// Whether committed bytes match the digest their specimen records.
pub fn committed_matches(file: &FixtureFileV1, local: &Vec<u8>) -> (r: bool)
    ensures
        r == local_matches(*file, local@),
{
    let expected = to_lower(chars_of(file.sha256.as_str()).as_slice());
    let digest = sha256(local.as_slice());
    let chars = chars_of(digest.as_str());
    crate::text::chars_eq(chars.as_slice(), expected.as_slice())
}

/// What checking the sources meets first, from case `c` on, before it asks the
/// fetcher for anything.
pub enum FirstCheck {
    /// Every case is checked without a fetch.
    Done,
    /// A case's revision is not a full commit id.
    BadRevision,
    /// Reading a committed file failed, with this message.
    ReadFailed(Seq<char>),
    /// A committed file does not match its digest; the case has this id.
    Committed(Seq<char>),
    /// The first fetch is made: what follows depends on what it returns.
    Fetch,
}

pub open spec fn first_check(cases: Seq<BenchmarkCase>, local: Seq<Vec<Result<Vec<u8>, String>>>, c: int) -> FirstCheck
    decreases cases.len() - c,
{
    if c < 0 || c >= cases.len() {
        FirstCheck::Done
    } else if !exact_revision(cases[c].specimen.upstream.revision@) {
        FirstCheck::BadRevision
    } else if cases[c].specimen.files@.len() == 0 {
        first_check(cases, local, c + 1)
    } else {
        match local[c]@[0] {
            Err(m) => FirstCheck::ReadFailed(m@),
            Ok(b) => if local_matches(cases[c].specimen.files@[0], b@) {
                FirstCheck::Fetch
            } else {
                FirstCheck::Committed(cases[c].id@)
            },
        }
    }
}

/// Checks every committed fixture of every case against its specimen and its
/// upstream. `local` holds, per case and file, the committed bytes or the
/// message of the read that failed. A file's committed digest is checked before
/// its upstream copy is asked for, with the request that `fetch_requests` makes
/// for it; whatever comes before the first such request is decided here.
pub fn verify_sources<F: SourceFetcher>(
    cases: &[BenchmarkCase],
    local: &Vec<Vec<Result<Vec<u8>, String>>>,
    fetcher: &F,
) -> (r: Result<(), SourceError>)
    requires
        local@.len() == cases@.len(),
        forall|c: int| 0 <= c < cases@.len() ==> (#[trigger] local@[c])@.len() == cases@[c].specimen.files@.len(),
    ensures
        match first_check(cases@, local@, 0) {
            FirstCheck::Done => r is Ok,
            FirstCheck::BadRevision => r matches Err(SourceError::InvalidRevision(m))
                && m@ == "revision must be exactly 40 hexadecimal characters"@,
            FirstCheck::ReadFailed(m) => r matches Err(SourceError::Io(x)) && x@ == m,
            FirstCheck::Committed(id) => r matches Err(SourceError::RemoteMismatch(x))
                && x@ == id + " committed fixture digest does not match specimen"@,
            FirstCheck::Fetch => true,
        },
        r is Ok ==> forall|c: int| 0 <= c < cases@.len() ==> exact_revision(#[trigger] cases@[c].specimen.upstream.revision@),
        r is Ok ==> forall|c: int, f: int| 0 <= c < cases@.len() && 0 <= f < cases@[c].specimen.files@.len()
            ==> ((#[trigger] local@[c]@[f]) matches Ok(b) && hex_text(sha256_of(b@)) == lower_text(cases@[c].specimen.files@[f].sha256@)),
{
    let ghost mut fetched = false;
    let mut c: usize = 0;
    while c < cases.len()
        invariant
            c <= cases.len(),
            !fetched ==> first_check(cases@, local@, 0) == first_check(cases@, local@, c as int),
            fetched ==> first_check(cases@, local@, 0) is Fetch,
            local@.len() == cases@.len(),
            forall|q: int| 0 <= q < cases@.len() ==> (#[trigger] local@[q])@.len() == cases@[q].specimen.files@.len(),
            forall|q: int| 0 <= q < c ==> exact_revision(#[trigger] cases@[q].specimen.upstream.revision@),
            forall|q: int, f: int| 0 <= q < c && 0 <= f < cases@[q].specimen.files@.len()
                ==> ((#[trigger] local@[q]@[f]) matches Ok(b) && hex_text(sha256_of(b@)) == lower_text(cases@[q].specimen.files@[f].sha256@)),
        decreases cases.len() - c,
    {
        let case = &cases[c];
        match require_exact_revision(case.specimen.upstream.revision.as_str()) {
            Ok(()) => {},
            Err(e) => {
                return Err(e);
            },
        }
        let files = &case.specimen.files;
        let requests = fetch_requests(case, case.specimen.upstream.revision.as_str());
        let mut f: usize = 0;
        while f < files.len()
            invariant
                f <= files.len(),
                c < cases@.len(),
                *case == cases@[c as int],
                requests_for(requests@, cases@[c as int], cases@[c as int].specimen.upstream.revision@),
                !fetched ==> f == 0,
                !fetched ==> first_check(cases@, local@, 0) == first_check(cases@, local@, c as int),
                fetched ==> first_check(cases@, local@, 0) is Fetch,
                exact_revision(cases@[c as int].specimen.upstream.revision@),
                forall|q: int| 0 <= q < c ==> exact_revision(#[trigger] cases@[q].specimen.upstream.revision@),
                *files == cases@[c as int].specimen.files,
                local@.len() == cases@.len(),
                forall|q: int| 0 <= q < cases@.len() ==> (#[trigger] local@[q])@.len() == cases@[q].specimen.files@.len(),
                forall|g: int| 0 <= g < f ==> ((#[trigger] local@[c as int]@[g]) matches Ok(b) && hex_text(sha256_of(b@)) == lower_text(files@[g].sha256@)),
            decreases files.len() - f,
        {
            let file = &files[f];
            let bytes = match &local[c][f] {
                Ok(b) => b,
                Err(m) => {
                    return Err(SourceError::Io(m.clone()));
                },
            };
            if !committed_matches(file, bytes) {
                return Err(SourceError::RemoteMismatch(cat2(case.id.as_str(), " committed fixture digest does not match specimen")));
            }
            let request = &requests[f];
            let remote = fetcher.fetch(request.repository.as_str(), request.revision.as_str(), request.path.as_str());
            proof {
                if !fetched {
                    assert(local@[c as int]@[0] == local[c as int][f as int]);
                    assert(first_check(cases@, local@, c as int) is Fetch);
                }
                fetched = true;
            }
            match check_fixture_file(
                case.id.as_str(),
                case.specimen.upstream.repository.as_str(),
                case.specimen.upstream.revision.as_str(),
                file,
                bytes,
                remote,
            ) {
                Ok(()) => {},
                Err(e) => {
                    return Err(e);
                },
            }
            f = f + 1;
        }
        proof {
            if !fetched {
                assert(files@.len() == 0);
            }
        }
        c = c + 1;
    }
    Ok(())
}

/// A specimen pinned to a new revision, with the bytes fetched for it.
pub struct StagedCase {
    pub specimen: SpecimenV1,
    pub files: Vec<(String, Vec<u8>)>,
}

/// Fetches every file of a case at a new exact revision and records its digest.
/// A staged case keeps the specimen of its case, pinned to the lowercased
/// revision, with each file's digest taken from the bytes fetched for it.
pub open spec fn staged_for(s: StagedCase, case: BenchmarkCase, revision: Seq<char>) -> bool {
    &&& s.specimen.schema@ == case.specimen.schema@
    &&& s.specimen.id@ == case.specimen.id@
    &&& s.specimen.repository@ == case.specimen.repository@
    &&& s.specimen.scenario@ == case.specimen.scenario@
    &&& s.specimen.upstream.revision@ == lower_text(revision)
    &&& s.specimen.upstream.repository@ == case.specimen.upstream.repository@
    &&& s.specimen.files@.len() == case.specimen.files@.len()
    &&& s.files@.len() == case.specimen.files@.len()
    &&& forall|f: int| 0 <= f < s.files@.len() ==> {
        &&& (#[trigger] s.specimen.files@[f]).fixture_path@ == case.specimen.files@[f].fixture_path@
        &&& s.specimen.files@[f].upstream_path@ == case.specimen.files@[f].upstream_path@
        &&& s.specimen.files@[f].sha256@ == hex_text(sha256_of(s.files@[f].1@))
        &&& s.files@[f].0@ == case.specimen.files@[f].fixture_path@
    }
}

pub fn stage_refresh<F: SourceFetcher>(case: &BenchmarkCase, revision: &str, fetcher: &F) -> (r: Result<StagedCase, SourceError>)
    ensures
        case.specimen.files@.len() == 0 ==> r is Ok,
        r is Err ==> case.specimen.files@.len() > 0,
        r matches Ok(s) ==> staged_for(s, *case, revision@),
{
    let lowered = string_of(to_lower(chars_of(revision).as_slice()).as_slice());
    let requests = fetch_requests(case, revision);
    let mut files: Vec<FixtureFileV1> = Vec::new();
    let mut staged: Vec<(String, Vec<u8>)> = Vec::new();
    let mut f: usize = 0;
    while f < case.specimen.files.len()
        invariant
            f <= case.specimen.files.len(),
            requests_for(requests@, *case, revision@),
            files@.len() == f,
            staged@.len() == f,
            forall|g: int| 0 <= g < f ==> {
                &&& (#[trigger] files@[g]).fixture_path@ == case.specimen.files@[g].fixture_path@
                &&& files@[g].upstream_path@ == case.specimen.files@[g].upstream_path@
                &&& files@[g].sha256@ == hex_text(sha256_of(staged@[g].1@))
                &&& staged@[g].0@ == case.specimen.files@[g].fixture_path@
            },
        decreases case.specimen.files.len() - f,
    {
        let file = &case.specimen.files[f];
        let request = &requests[f];
        let bytes = match fetcher.fetch(request.repository.as_str(), request.revision.as_str(), request.path.as_str()) {
            Ok(b) => b,
            Err(e) => {
                return Err(e);
            },
        };
        let digest = sha256(bytes.as_slice());
        files.push(FixtureFileV1 {
            fixture_path: file.fixture_path.clone(),
            upstream_path: file.upstream_path.clone(),
            sha256: digest,
        });
        staged.push((file.fixture_path.clone(), bytes));
        f = f + 1;
    }
    let specimen = SpecimenV1 {
        schema: case.specimen.schema.clone(),
        id: case.specimen.id.clone(),
        repository: case.specimen.repository.clone(),
        scenario: case.specimen.scenario.clone(),
        upstream: crate::benchmark::model::UpstreamV1 {
            repository: case.specimen.upstream.repository.clone(),
            revision: lowered,
        },
        files,
    };
    Ok(StagedCase { specimen, files: staged })
}


/// Stages every case at a new exact revision before anything is written: a
/// revision that is not a full commit id is refused before any fetch, and the
/// first failed fetch stops the refresh.
pub fn stage_refreshes<F: SourceFetcher>(cases: &[BenchmarkCase], revision: &str, fetcher: &F) -> (r: Result<
    Vec<StagedCase>,
    SourceError,
>)
    ensures
        !exact_revision(revision@) ==> (r matches Err(SourceError::InvalidRevision(m))
            && m@ == "revision must be exactly 40 hexadecimal characters"@),
        r matches Ok(v) ==> exact_revision(revision@) && v@.len() == cases@.len() && forall|c: int|
            0 <= c < cases@.len() ==> staged_for(#[trigger] v@[c], cases@[c], revision@),
{
    match require_exact_revision(revision) {
        Ok(()) => {},
        Err(e) => {
            return Err(e);
        },
    }
    let mut staged: Vec<StagedCase> = Vec::new();
    let mut c: usize = 0;
    while c < cases.len()
        invariant
            c <= cases@.len(),
            exact_revision(revision@),
            staged@.len() == c,
            forall|q: int| 0 <= q < c ==> staged_for(#[trigger] staged@[q], cases@[q], revision@),
        decreases cases.len() - c,
    {
        match stage_refresh(&cases[c], revision, fetcher) {
            Ok(s) => {
                staged.push(s);
            },
            Err(e) => {
                return Err(e);
            },
        }
        c = c + 1;
    }
    Ok(staged)
}

} // verus!
