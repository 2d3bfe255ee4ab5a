use crate::text::{lemma_trim_end_all, trim_end_all};
use vstd::prelude::*;
use vstd::string::*;

verus! {

/// A failure of the caching fetcher, as the caller sees it.
#[derive(Debug, PartialEq, Eq)]
pub enum FetchError {
    /// A malformed URL string; carries the parser's message.
    UrlParseError(String),
    /// A filesystem read, write or directory-creation failure.
    IoError(String),
    /// An HTTP transport failure or non-success status.
    RequestError(String),
    /// A URL whose path does not fit the cache layout.
    PathError(String),
}

/// True when `c` occurs in `s`.
pub open spec fn contains_char(s: Seq<char>, c: char) -> bool {
    exists|i: int| 0 <= i < s.len() && s[i] == c
}

/// Whether `c` occurs in `s`.
#[verifier::loop_isolation(false)]
pub fn str_contains_char(s: &str, c: char) -> (r: bool)
    ensures
        r == contains_char(s@, c),
{
    let n = s.unicode_len();
    let mut i: usize = 0;
    while i < n
        invariant
            0 <= i <= n,
            forall|j: int| 0 <= j < i ==> s@[j] != c,
        decreases n - i,
    {
        if s.get_char(i) == c {
            return true;
        }
        i += 1;
    }
    false
}

/// Index of the last `/` in `s`, or -1 when there is none.
pub open spec fn spec_last_slash(s: Seq<char>) -> int
    decreases s.len(),
{
    if s.len() == 0 {
        -1
    } else if s.last() == '/' {
        s.len() - 1
    } else {
        spec_last_slash(s.drop_last())
    }
}

/// The part of `s` after its last `/` (all of `s` when there is none).
pub open spec fn last_segment(s: Seq<char>) -> Seq<char> {
    s.subrange(spec_last_slash(s) + 1, s.len() as int)
}

/// The bare `.` and `..` path components (and an empty segment), which name
/// no file at all.
pub open spec fn is_dot_component(seg: Seq<char>) -> bool {
    seg.len() <= 2 && forall|i: int| 0 <= i < seg.len() ==> seg[i] == '.'
}

/// The file-name segment of `s`: the part after the last `/` once trailing
/// `/`s are ignored, as std computes a path's file name.
pub open spec fn file_name_segment(s: Seq<char>) -> Seq<char> {
    last_segment(trim_end_all(s, '/'))
}

/// Whether the file-name segment of `s` has a file extension: a `.` that is
/// not the segment's first character. The bare `.` and `..` components name
/// no file and never have one.
pub open spec fn has_extension(s: Seq<char>) -> bool {
    &&& !is_dot_component(file_name_segment(s))
    &&& exists|i: int| 1 <= i < file_name_segment(s).len() && file_name_segment(s)[i] == '.'
}

/// `dir` extended by one path segment: a `/` and the segment, or the bare
/// segment when `dir` is empty.
pub open spec fn join_one(dir: Seq<char>, seg: Seq<char>) -> Seq<char> {
    if dir.len() == 0 {
        seg
    } else {
        dir + seq!['/'] + seg
    }
}

/// `base` extended by the segments of `segs` from index `i` on.
pub open spec fn spec_join_dir(base: Seq<char>, segs: Seq<Seq<char>>, i: int) -> Seq<char>
    decreases segs.len() - i,
{
    if i < 0 || i >= segs.len() {
        base
    } else {
        spec_join_dir(join_one(base, segs[i]), segs, i + 1)
    }
}

/// Where a fetched document is cached on disk: a directory path and a file
/// name inside it.
#[derive(Debug, PartialEq)]
pub struct CachePath {
    pub dir: String,
    pub file: String,
}

/// The mathematical shape of a `CachePath`.
pub struct CachePathV {
    pub dir: Seq<char>,
    pub file: Seq<char>,
}

impl View for CachePath {
    type V = CachePathV;

    open spec fn view(&self) -> CachePathV {
        CachePathV { dir: self.dir@, file: self.file@ }
    }
}

/// The full path of the cache file: the directory, a `/`, and the file name.
pub open spec fn spec_full_path(cp: CachePathV) -> Seq<char> {
    join_one(cp.dir, cp.file)
}

impl CachePath {
    /// Create a `CachePath` without validation.
    pub fn new(dir: String, file: String) -> (r: Self)
        ensures
            r@.dir == dir@,
            r@.file == file@,
    {
        CachePath { dir, file }
    }

    /// Create a `CachePath`, validating that the directory's last segment has
    /// no file extension and that the file name has one; the error message
    /// names whichever of the two was refused.
    pub fn try_new(dir: String, file: String) -> (r: Result<Self, FetchError>)
        ensures
            (r is Ok) == (!has_extension(dir@) && has_extension(file@)),
            r matches Ok(cp) ==> cp@.dir == dir@ && cp@.file == file@,
            r matches Err(e) ==> (e matches FetchError::PathError(m) && (has_extension(dir@)
                ==> m@ == "directory name must not have an extension, got: "@ + dir@) && (
            !has_extension(dir@) ==> m@ == "file name must have an extension, got: "@ + file@)),
    {
        if segment_has_extension(dir.as_str()) {
            let mut m = String::from_str("directory name must not have an extension, got: ");
            m.append(dir.as_str());
            return Err(FetchError::PathError(m));
        }
        if !segment_has_extension(file.as_str()) {
            let mut m = String::from_str("file name must have an extension, got: ");
            m.append(file.as_str());
            return Err(FetchError::PathError(m));
        }
        Ok(CachePath { dir, file })
    }

    /// Return the directory path.
    pub fn dir(&self) -> (r: &String)
        ensures
            r@ == self@.dir,
    {
        &self.dir
    }

    /// Return the file name without the directory.
    pub fn file(&self) -> (r: &String)
        ensures
            r@ == self@.file,
    {
        &self.file
    }

    /// Return the full path to the file, using the directory as the parent.
    pub fn path(&self) -> (r: String)
        ensures
            r@ == spec_full_path(self@),
    {
        if self.dir.as_str().unicode_len() == 0 {
            self.file.clone()
        } else {
            let mut out = self.dir.clone();
            out.append("/");
            out.append(self.file.as_str());
            proof {
                reveal_strlit("/");
                assert(out@ =~= self@.dir + seq!['/'] + self@.file);
            }
            out
        }
    }

    /// Return whether the cache file exists on disk.
    pub fn exists_on_disk(&self) -> bool {
        let p = self.path();
        path_exists(p.as_str())
    }
}

/// Relies on std::path::Path::exists: whether something is present at `p` on
/// this machine's filesystem. Nothing is promised of the result.
#[verifier::external_body]
fn path_exists(p: &str) -> bool {
    std::path::Path::new(p).exists()
}

/// Whether the file-name segment of `s` has a file extension.
#[verifier::loop_isolation(false)]
fn segment_has_extension(s: &str) -> (r: bool)
    ensures
        r == has_extension(s@),
{
    let n = s.unicode_len();
    // Trailing separators name no segment: pass over them first.
    let mut end: usize = n;
    while end > 0 && s.get_char(end - 1) == '/'
        invariant
            0 <= end <= n,
            forall|j: int| end <= j < n ==> s@[j] == '/',
        decreases end,
    {
        end -= 1;
    }
    let ghost trimmed = trim_end_all(s@, '/');
    proof {
        lemma_trim_end_all(s@, '/', end as int);
        assert(trimmed =~= s@.subrange(0, end as int));
    }
    // Find the index one past the last '/' before `end`.
    let mut start: usize = end;
    while start > 0 && s.get_char(start - 1) != '/'
        invariant
            0 <= start <= end,
            forall|j: int| start <= j < end ==> s@[j] != '/',
        decreases start,
    {
        start -= 1;
    }
    let ghost seg = file_name_segment(s@);
    proof {
        lemma_last_slash(trimmed, start as int);
        assert(seg =~= s@.subrange(start as int, end as int));
    }
    // The bare `.` and `..` components name no file and have no extension.
    let seg_len = end - start;
    let dots_only: bool = if seg_len == 0 {
        true
    } else if seg_len == 1 {
        s.get_char(start) == '.'
    } else if seg_len == 2 {
        s.get_char(start) == '.' && s.get_char(start + 1) == '.'
    } else {
        false
    };
    proof {
        if seg_len <= 2 {
            if dots_only {
                assert forall|i: int| 0 <= i < seg.len() implies seg[i] == '.' by {
                    assert(seg[i] == s@[start + i]);
                }
            } else {
                if seg_len == 1 {
                    assert(seg[0] == s@[start as int]);
                } else if s@[start as int] != '.' {
                    assert(seg[0] == s@[start as int]);
                } else {
                    assert(seg[1] == s@[start as int + 1]);
                }
            }
        }
    }
    if dots_only {
        return false;
    }
    // A '.' after the segment's first character is an extension separator.
    let mut i: usize = start;
    while i < end
        invariant
            start <= i <= end,
            forall|j: int| start < j < i ==> s@[j] != '.',
        decreases end - i,
    {
        if i > start && s.get_char(i) == '.' {
            assert(seg[i - start] == '.');
            return true;
        }
        i += 1;
    }
    assert(forall|k: int| 1 <= k < seg.len() ==> seg[k] == s@[start + k] && s@[start + k] != '.');
    false
}

/// When every character from `start` to the end of `s` is not `/`, and either
/// `start` is 0 or the character before it is `/`, the last segment of `s`
/// begins at `start`.
proof fn lemma_last_slash(s: Seq<char>, start: int)
    requires
        0 <= start <= s.len(),
        forall|j: int| start <= j < s.len() ==> s[j] != '/',
        start == 0 || s[start - 1] == '/',
    ensures
        spec_last_slash(s) == start - 1,
    decreases s.len(),
{
    if s.len() == 0 {
    } else if s.last() == '/' {
    } else {
        lemma_last_slash(s.drop_last(), start);
    }
}

/// The cache path derived from a URL's path segments under `base_dir`: every
/// segment but the last becomes a nested directory, the last becomes the file
/// name and must contain a `.`; a URL with no segments at all is refused.
/// The error message says which of the two was missing, naming the offending
/// last segment where there is one.
#[verifier::loop_isolation(false)]
pub fn cache_path_from_segments(segments: &Vec<String>, base_dir: &str) -> (r: Result<
    CachePath,
    FetchError,
>)
    ensures
        (r is Ok) == (segments@.len() >= 1 && contains_char(
            segments@[segments@.len() - 1]@,
            '.',
        )),
        r matches Ok(cp) ==> cp@.file == segments@[segments@.len() - 1]@ && cp@.dir
            == spec_join_dir(base_dir@, segments.deep_view().drop_last(), 0),
        r matches Err(e) ==> (e matches FetchError::PathError(m) && (segments@.len() == 0 ==> m@
            == "the URL's path is empty; expected at least one path segment"@) && (segments@.len()
            >= 1 ==> m@
            == "expected the last path segment of the URL to contain a period (file extension), e.g. '.json', but got: "@
            + segments@[segments@.len() - 1]@)),
{
    if segments.len() == 0 {
        return Err(
            FetchError::PathError(
                String::from_str("the URL's path is empty; expected at least one path segment"),
            ),
        );
    }
    let last = &segments[segments.len() - 1];
    if !str_contains_char(last.as_str(), '.') {
        let mut m = String::from_str(
            "expected the last path segment of the URL to contain a period (file extension), e.g. '.json', but got: ",
        );
        m.append(last.as_str());
        return Err(FetchError::PathError(m));
    }
    let mut dir = String::from_str(base_dir);
    let ghost segs = segments.deep_view().drop_last();
    let mut i: usize = 0;
    while i < segments.len() - 1
        invariant
            0 <= i <= segments@.len() - 1,
            segs == segments.deep_view().drop_last(),
            spec_join_dir(base_dir@, segs, 0) == spec_join_dir(dir@, segs, i as int),
        decreases segments@.len() - 1 - i,
    {
        let ghost old_dir = dir@;
        if dir.as_str().unicode_len() > 0 {
            dir.append("/");
        }
        dir.append(segments[i].as_str());
        proof {
            reveal_strlit("/");
            assert(dir@ =~= join_one(old_dir, segs[i as int]));
        }
        i += 1;
    }
    let file = segments[segments.len() - 1].clone();
    Ok(CachePath { dir, file })
}

/// What the caching fetcher does next: a URL whose cache file exists is read
/// back from disk without any network call; otherwise the body is fetched
/// over the network and written to the cache before being returned.
#[derive(Debug, PartialEq, Eq, Structural, Clone, Copy)]
pub enum FetchPlan {
    ReadCache,
    DownloadAndStore,
}

/// Decide what the fetcher does for a URL whose cache file does or does not
/// exist. A cached document is never fetched again.
pub fn plan_fetch(cache_exists: bool) -> (r: FetchPlan)
    ensures
        r == (if cache_exists {
            FetchPlan::ReadCache
        } else {
            FetchPlan::DownloadAndStore
        }),
{
    if cache_exists {
        FetchPlan::ReadCache
    } else {
        FetchPlan::DownloadAndStore
    }
}

#[verifier::external_type_specification]
#[verifier::external_body]
pub struct ExUrl(url::Url);

/// Relies on url::Url::path_segments: the `/`-separated segments of the URL's
/// path, each percent-encoded; at least one (possibly empty) segment when the
/// URL can be a base, and nothing otherwise.
#[verifier::external_body]
fn url_path_segments(u: &url::Url) -> (r: Option<Vec<String>>)
    ensures
        r matches Some(v) ==> v@.len() >= 1,
{
    u.path_segments().map(|s| s.map(String::from).collect())
}

/// Relies on url::Url::as_str: the serialization of the URL.
#[verifier::external_body]
fn url_as_str(u: &url::Url) -> &str {
    u.as_str()
}

/// Derive the cache path for `url` under `base_dir`: the URL's path segments
/// become nested directories, the last segment (which must contain a `.`)
/// becomes the file name.
pub fn cache_path_from_url(url: &url::Url, base_dir: &str) -> (r: Result<CachePath, FetchError>)
    ensures
        r matches Ok(cp) ==> contains_char(cp@.file, '.'),
        r matches Err(e) ==> e is PathError,
{
    match url_path_segments(url) {
        None => {
            let mut m = String::from_str("the URL '");
            m.append(url_as_str(url));
            m.append("' does not have path segments");
            Err(FetchError::PathError(m))
        },
        Some(segments) => cache_path_from_segments(&segments, base_dir),
    }
}

} // verus!
