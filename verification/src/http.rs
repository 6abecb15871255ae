//! HTTP response building: the response value, its status line and header
//! table, and media-type selection from a path's extension. Parsing requests
//! off the wire and writing responses to it belong to the unverified I/O
//! shell; this module owns the data the shell serializes.

use crate::dirwatch::SEP;
use vstd::prelude::*;
use vstd::slice::slice_index_get;

verus! {

/// The extension separator byte, `.`.
pub const DOT: u8 = 46;

/// Compares two byte strings.
pub fn bytes_eq(a: &[u8], b: &[u8]) -> (r: bool)
    ensures
        r <==> a@ == b@,
{
    if a.len() != b.len() {
        return false;
    }
    let n = a.len();
    let mut i: usize = 0;
    #[verifier::loop_isolation(false)]
    while i < n
        invariant
            i <= n,
            forall|j: int| 0 <= j < i ==> a@[j] == b@[j],
        decreases n - i,
    {
        if *slice_index_get(a, i) != *slice_index_get(b, i) {
            return false;
        }
        i = i + 1;
    }
    proof {
        assert(a@ =~= b@);
    }
    true
}

/// An HTTP request method.
#[derive(Clone, Copy, PartialEq, Eq, Structural, Debug)]
pub enum HttpMethod {
    Get,
    Post,
    Put,
    Delete,
    Patch,
    Options,
    Head,
    Trace,
    Connect,
    Unknown,
}

/// The value a header table holds for key `k`: the first entry whose key
/// matches, as the table never keeps two entries with one key.
pub open spec fn header_lookup(entries: Seq<(String, String)>, k: Seq<char>) -> Option<Seq<char>>
    decreases entries.len(),
{
    if entries.len() == 0 {
        None
    } else if entries[0].0@ == k {
        Some(entries[0].1@)
    } else {
        header_lookup(entries.drop_first(), k)
    }
}

/// A case-preserving header table with at most one entry per key.
pub struct HttpHeaders {
    entries: Vec<(String, String)>,
}

impl View for HttpHeaders {
    type V = Seq<(String, String)>;

    closed spec fn view(&self) -> Seq<(String, String)> {
        self.entries@
    }
}

impl HttpHeaders {
    /// An empty table.
    pub fn new() -> (h: Self)
        ensures
            h@ == Seq::<(String, String)>::empty(),
    {
        HttpHeaders { entries: Vec::new() }
    }

    /// The value stored under `k`, if any.
    pub fn get(&self, k: &str) -> (r: Option<&String>)
        ensures
            match r {
                Some(v) => header_lookup(self@, k@) == Some(v@),
                None => header_lookup(self@, k@) is None,
            },
    {
        let key: String = k.to_owned();
        let n = self.entries.len();
        let mut i: usize = 0;
        proof {
            assert(self@.skip(0) =~= self@);
        }
        #[verifier::loop_isolation(false)]
        while i < n
            invariant
                i <= n,
                header_lookup(self@, k@) == header_lookup(self@.skip(i as int), k@),
            decreases n - i,
        {
            proof {
                assert(self@.skip(i as int).drop_first() =~= self@.skip(i as int + 1));
                assert(self@.skip(i as int)[0] == self@[i as int]);
            }
            if self.entries[i].0 == key {
                return Some(&self.entries[i].1);
            }
            i = i + 1;
        }
        proof {
            assert(self@.skip(n as int) =~= Seq::<(String, String)>::empty());
        }
        None
    }

    /// Stores `v` under `k`, replacing the value an earlier entry with that
    /// key held; every other key keeps its value.
    pub fn set(&mut self, k: &str, v: &str)
        ensures
            header_lookup(final(self)@, k@) == Some(v@),
            forall|k2: Seq<char>|
                k2 != k@ ==> #[trigger] header_lookup(final(self)@, k2) == header_lookup(
                    old(self)@,
                    k2,
                ),
    {
        let key: String = k.to_owned();
        let value: String = v.to_owned();
        let n = self.entries.len();
        let mut i: usize = 0;
        #[verifier::loop_isolation(false)]
        while i < n
            invariant
                i <= n,
                self@ == old(self)@,
                n == self@.len(),
                forall|j: int| 0 <= j < i ==> (#[trigger] self@[j]).0@ != k@,
            decreases n - i,
        {
            if self.entries[i].0 == key {
                let ghost p: (String, String) = (key, value);
                self.entries.set(i, (key, value));
                proof {
                    lemma_lookup_update(old(self)@, i as int, p, k@);
                }
                return ;
            }
            i = i + 1;
        }
        let ghost p: (String, String) = (key, value);
        self.entries.push((key, value));
        proof {
            lemma_lookup_push(old(self)@, p, k@);
        }
    }

    /// Number of entries.
    pub fn len(&self) -> (r: usize)
        ensures
            r == self@.len(),
    {
        self.entries.len()
    }
}

/// Replacing the first entry holding key `k` rebinds `k` and no other key.
proof fn lemma_lookup_update(s: Seq<(String, String)>, i: int, p: (String, String), k: Seq<char>)
    requires
        0 <= i < s.len(),
        forall|j: int| 0 <= j < i ==> (#[trigger] s[j]).0@ != k,
        s[i].0@ == k,
        p.0@ == k,
    ensures
        header_lookup(s.update(i, p), k) == Some(p.1@),
        forall|k2: Seq<char>|
            k2 != k ==> #[trigger] header_lookup(s.update(i, p), k2) == header_lookup(s, k2),
    decreases i,
{
    let t = s.update(i, p);
    if i == 0 {
        assert(t[0] == p);
        assert(t.drop_first() =~= s.drop_first());
        assert forall|k2: Seq<char>| k2 != k implies #[trigger] header_lookup(t, k2)
            == header_lookup(s, k2) by {
            assert(header_lookup(t, k2) == header_lookup(t.drop_first(), k2));
            assert(header_lookup(s, k2) == header_lookup(s.drop_first(), k2));
        }
    } else {
        let s1 = s.drop_first();
        let t1 = t.drop_first();
        assert(t1 =~= s1.update(i - 1, p));
        assert forall|j: int| 0 <= j < i - 1 implies (#[trigger] s1[j]).0@ != k by {
            assert(s1[j] == s[j + 1]);
        }
        assert(s1[i - 1] == s[i]);
        lemma_lookup_update(s1, i - 1, p, k);
        assert(t[0] == s[0]);
        assert(s[0].0@ != k);
        assert forall|k2: Seq<char>| k2 != k implies #[trigger] header_lookup(t, k2)
            == header_lookup(s, k2) by {
            if t[0].0@ != k2 {
                assert(header_lookup(t, k2) == header_lookup(t1, k2));
                assert(header_lookup(s, k2) == header_lookup(s1, k2));
                assert(header_lookup(s1.update(i - 1, p), k2) == header_lookup(s1, k2));
            }
        }
    }
}

/// Appending an entry with a key the table does not hold binds that key and
/// no other.
proof fn lemma_lookup_push(s: Seq<(String, String)>, p: (String, String), k: Seq<char>)
    requires
        forall|j: int| 0 <= j < s.len() ==> (#[trigger] s[j]).0@ != k,
        p.0@ == k,
    ensures
        header_lookup(s.push(p), k) == Some(p.1@),
        forall|k2: Seq<char>|
            k2 != k ==> #[trigger] header_lookup(s.push(p), k2) == header_lookup(s, k2),
    decreases s.len(),
{
    let t = s.push(p);
    if s.len() == 0 {
        assert(t[0] == p);
        assert(t.drop_first() =~= Seq::<(String, String)>::empty());
        assert forall|k2: Seq<char>| k2 != k implies #[trigger] header_lookup(t, k2)
            == header_lookup(s, k2) by {
            assert(header_lookup(t, k2) == header_lookup(t.drop_first(), k2));
        }
    } else {
        let s1 = s.drop_first();
        let t1 = t.drop_first();
        assert(t1 =~= s1.push(p));
        assert forall|j: int| 0 <= j < s1.len() implies (#[trigger] s1[j]).0@ != k by {
            assert(s1[j] == s[j + 1]);
        }
        lemma_lookup_push(s1, p, k);
        assert(t[0] == s[0]);
        assert(s[0].0@ != k);
        assert forall|k2: Seq<char>| k2 != k implies #[trigger] header_lookup(t, k2)
            == header_lookup(s, k2) by {
            if t[0].0@ != k2 {
                assert(header_lookup(t, k2) == header_lookup(t1, k2));
                assert(header_lookup(s, k2) == header_lookup(s1, k2));
                assert(header_lookup(s1.push(p), k2) == header_lookup(s1, k2));
            }
        }
    }
}

/// The body served with a 404 status.
pub open spec fn not_found_body() -> Seq<u8> {
    // "404 Not Found"
    seq![52u8, 48, 52, 32, 78, 111, 116, 32, 70, 111, 117, 110, 100]
}

/// An HTTP response under construction: status code, header table, and body.
pub struct HttpResponse {
    /// The status code.
    pub status: usize,
    /// The response headers.
    pub headers: HttpHeaders,
    /// The response body.
    pub contents: Vec<u8>,
}

impl HttpResponse {
    /// An empty 200 response.
    pub fn new() -> (res: Self)
        ensures
            res.status == 200,
            res.headers@ == Seq::<(String, String)>::empty(),
            res.contents@ == Seq::<u8>::empty(),
    {
        HttpResponse { status: 200, headers: HttpHeaders::new(), contents: Vec::new() }
    }

    /// Turns the response into a plain-text 404, appending the standard body.
    pub fn set_404(&mut self)
        ensures
            final(self).status == 404,
            final(self).contents@ == old(self).contents@ + not_found_body(),
            header_lookup(final(self).headers@, "content-type"@) == Some("text/plain"@),
            forall|k2: Seq<char>|
                k2 != "content-type"@ ==> #[trigger] header_lookup(final(self).headers@, k2)
                    == header_lookup(old(self).headers@, k2),
    {
        self.set_status(404);
        // "404 Not Found"
        let body = [52u8, 48, 52, 32, 78, 111, 116, 32, 70, 111, 117, 110, 100];
        self.set_content(body.as_slice());
        proof {
            assert(body@ =~= not_found_body());
        }
        self.set_header("content-type", "text/plain");
    }

    /// Sets the status code.
    pub fn set_status(&mut self, status: usize)
        ensures
            final(self).status == status,
            final(self).headers == old(self).headers,
            final(self).contents == old(self).contents,
    {
        self.status = status;
    }

    /// Appends `content` to the body.
    pub fn set_content(&mut self, content: &[u8])
        ensures
            final(self).contents@ == old(self).contents@ + content@,
            final(self).status == old(self).status,
            final(self).headers == old(self).headers,
    {
        let n = content.len();
        let mut i: usize = 0;
        #[verifier::loop_isolation(false)]
        while i < n
            invariant
                i <= n,
                self.contents@ == old(self).contents@ + content@.take(i as int),
                self.status == old(self).status,
                self.headers == old(self).headers,
            decreases n - i,
        {
            self.contents.push(*slice_index_get(content, i));
            proof {
                assert(old(self).contents@ + content@.take(i as int + 1) =~= (old(
                    self,
                ).contents@ + content@.take(i as int)).push(content@[i as int]));
            }
            i = i + 1;
        }
        proof {
            assert(content@.take(n as int) =~= content@);
        }
    }

    /// Stores header `k: v`, replacing the value `k` held before.
    pub fn set_header(&mut self, k: &str, v: &str)
        ensures
            header_lookup(final(self).headers@, k@) == Some(v@),
            forall|k2: Seq<char>|
                k2 != k@ ==> #[trigger] header_lookup(final(self).headers@, k2) == header_lookup(
                    old(self).headers@,
                    k2,
                ),
            final(self).status == old(self).status,
            final(self).contents == old(self).contents,
    {
        self.headers.set(k, v);
    }

    /// The reason phrase of the statuses the server produces.
    pub fn status_text(&self) -> (r: &'static str)
        requires
            self.status == 200 || self.status == 206 || self.status == 404,
        ensures
            self.status == 200 ==> r@ == "Ok"@,
            self.status == 206 ==> r@ == "Partial Content"@,
            self.status == 404 ==> r@ == "Not Found"@,
    {
        if self.status == 200 {
            "Ok"
        } else if self.status == 206 {
            "Partial Content"
        } else {
            "Not Found"
        }
    }
}

/// Largest body served in one response; anything longer is served as a
/// partial-content range.
pub const MAX_CONTENT_LEN: usize = 10000000;

/// How a file is served: which byte range of it goes into the body, and under
/// which status.
pub struct FilePlan {
    /// 206 for a clipped range, 200 for the whole file.
    pub status: usize,
    /// First byte of the body within the file.
    pub start: usize,
    /// One past the last byte of the body within the file.
    pub end: usize,
    /// Whether range headers accompany the body.
    pub partial: bool,
}

/// The end a requested range asks for: an explicit end, or the file's end for
/// an open-ended range or no range at all.
pub open spec fn requested_end(range: Option<(usize, usize)>, file_size: usize) -> int {
    match range {
        Some((s, e)) => if e == 0 {
            file_size as int
        } else {
            e as int
        },
        None => file_size as int,
    }
}

/// The start a requested range asks for; 0 without a range.
pub open spec fn requested_start(range: Option<(usize, usize)>) -> int {
    match range {
        Some((s, e)) => s as int,
        None => 0,
    }
}

/// Decides how to serve a file of `file_size` bytes: a requested range, and
/// any over-long non-image file, is served as partial content, clipped to the
/// size cap; everything else is served whole. A range's end of 0 means the
/// file's end.
pub fn plan_file_response(range: Option<(usize, usize)>, file_size: usize, is_image: bool) -> (p:
    FilePlan)
    requires
        requested_start(range) <= requested_end(range, file_size),
        requested_start(range) + MAX_CONTENT_LEN <= usize::MAX,
    ensures
        p.partial <==> !is_image && (range is Some || file_size > MAX_CONTENT_LEN),
        p.partial ==> {
            &&& p.status == 206
            &&& p.start == requested_start(range)
            &&& p.end == if requested_end(range, file_size) <= requested_start(range)
                + MAX_CONTENT_LEN {
                requested_end(range, file_size)
            } else {
                requested_start(range) + MAX_CONTENT_LEN
            }
            &&& p.start <= p.end
        },
        !p.partial ==> p.status == 200 && p.start == 0 && p.end == file_size,
{
    let (in_range, start, end) = match range {
        Some((s, e)) => (true, s, if e == 0 {
            file_size
        } else {
            e
        }),
        None => (false, 0, file_size),
    };
    if !is_image && (in_range || file_size > MAX_CONTENT_LEN) {
        let end = if end < start + MAX_CONTENT_LEN {
            end
        } else {
            start + MAX_CONTENT_LEN
        };
        FilePlan { status: 206, start, end, partial: true }
    } else {
        FilePlan { status: 200, start: 0, end: file_size, partial: false }
    }
}

/// Position right after the last `.` of the final path component: where the
/// extension starts. `None` when the component has no dot.
pub open spec fn ext_split(s: Seq<u8>) -> Option<int>
    decreases s.len(),
{
    if s.len() == 0 {
        None
    } else if s[s.len() - 1] == DOT {
        Some(s.len() as int)
    } else if s[s.len() - 1] == SEP {
        None
    } else {
        ext_split(s.drop_last())
    }
}

/// ASCII lower-casing of one byte.
pub open spec fn lower_byte(b: u8) -> u8 {
    if 65 <= b <= 90 {
        (b + 32) as u8
    } else {
        b
    }
}

/// The path's extension, lower-cased, when its final component has one.
pub open spec fn ext_of(s: Seq<u8>) -> Option<Seq<u8>> {
    match ext_split(s) {
        None => None,
        Some(i) => Some(s.skip(i).map_values(|b: u8| lower_byte(b))),
    }
}

/// The media type registered for a lower-cased extension; the generic
/// byte-stream type for unknown ones.
pub open spec fn mime_for_ext(e: Seq<u8>) -> Seq<char> {
    if e == seq![104u8, 116, 109, 108] {  // html
        "text/html"@
    } else if e == seq![99u8, 115, 115] {  // css
        "text/css"@
    } else if e == seq![106u8, 115] {  // js
        "application/javascript"@
    } else if e == seq![106u8, 115, 111, 110] {  // json
        "application/json"@
    } else if e == seq![112u8, 110, 103] {  // png
        "image/png"@
    } else if e == seq![106u8, 112, 103] || e == seq![106u8, 112, 101, 103] {  // jpg, jpeg
        "image/jpeg"@
    } else if e == seq![103u8, 105, 102] {  // gif
        "image/gif"@
    } else if e == seq![115u8, 118, 103] {  // svg
        "image/svg+xml"@
    } else if e == seq![105u8, 99, 111] {  // ico
        "image/x-icon"@
    } else if e == seq![120u8, 109, 108] {  // xml
        "application/xml"@
    } else if e == seq![112u8, 100, 102] {  // pdf
        "application/pdf"@
    } else if e == seq![122u8, 105, 112] {  // zip
        "application/zip"@
    } else if e == seq![109u8, 112, 52] {  // mp4
        "video/mp4"@
    } else if e == seq![109u8, 111, 118] {  // mov
        "video/quicktime"@
    } else if e == seq![109u8, 112, 51] {  // mp3
        "audio/mpeg"@
    } else if e == seq![119u8, 97, 118] {  // wav
        "audio/wav"@
    } else if e == seq![111u8, 103, 103] {  // ogg
        "audio/ogg"@
    } else if e == seq![119u8, 101, 98, 112] {  // webp
        "image/webp"@
    } else {
        "application/octet-stream"@
    }
}

/// The media type a path is served under.
pub open spec fn mime_type(path: Seq<u8>) -> Seq<char> {
    match ext_of(path) {
        None => "application/octet-stream"@,
        Some(e) => mime_for_ext(e),
    }
}

/// Finds where the extension of `path`'s final component starts.
fn find_ext_split(path: &[u8]) -> (r: Option<usize>)
    ensures
        r matches Some(i) ==> ext_split(path@) == Some(i as int) && i <= path@.len(),
        r is None ==> ext_split(path@) is None,
{
    let n = path.len();
    let mut i: usize = n;
    proof {
        assert(path@.take(n as int) =~= path@);
    }
    #[verifier::loop_isolation(false)]
    while i > 0
        invariant
            i <= n,
            ext_split(path@) == ext_split(path@.take(i as int)),
        decreases i,
    {
        let b = *slice_index_get(path, i - 1);
        if b == DOT {
            return Some(i);
        }
        if b == SEP {
            return None;
        }
        proof {
            assert(path@.take(i as int).drop_last() =~= path@.take(i as int - 1));
        }
        i = i - 1;
    }
    None
}

/// ASCII lower-casing of one byte.
fn lower_ascii(b: u8) -> (r: u8)
    ensures
        r == lower_byte(b),
{
    if 65 <= b && b <= 90 {
        b + 32
    } else {
        b
    }
}

/// The media type to serve the file at `path` under, selected by the
/// lower-cased extension of the path's final component; paths without an
/// extension, and unknown extensions, get the generic byte-stream type.
pub fn get_mime_type(path: &[u8]) -> (r: &'static str)
    ensures
        r@ == mime_type(path@),
{
    let split = match find_ext_split(path) {
        Some(i) => i,
        None => {
            return "application/octet-stream";
        },
    };
    let n = path.len();
    let mut lowered: Vec<u8> = Vec::new();
    let mut j: usize = split;
    #[verifier::loop_isolation(false)]
    while j < n
        invariant
            split <= j <= n,
            lowered@.len() == j - split,
            forall|m: int| 0 <= m < lowered@.len() ==> lowered@[m] == lower_byte(path@[split + m]),
        decreases n - j,
    {
        lowered.push(lower_ascii(*slice_index_get(path, j)));
        j = j + 1;
    }
    proof {
        assert(lowered@ =~= path@.skip(split as int).map_values(|b: u8| lower_byte(b)));
    }
    let e = lowered.as_slice();
    if bytes_eq(e, ([104u8, 116, 109, 108]).as_slice()) {  // html
        proof {
            assert(([104u8, 116, 109, 108])@ =~= seq![104u8, 116, 109, 108]);
        }
        return "text/html";
    }
    proof {
        assert(([104u8, 116, 109, 108])@ =~= seq![104u8, 116, 109, 108]);
    }
    if bytes_eq(e, ([99u8, 115, 115]).as_slice()) {  // css
        proof {
            assert(([99u8, 115, 115])@ =~= seq![99u8, 115, 115]);
        }
        return "text/css";
    }
    proof {
        assert(([99u8, 115, 115])@ =~= seq![99u8, 115, 115]);
    }
    if bytes_eq(e, ([106u8, 115]).as_slice()) {  // js
        proof {
            assert(([106u8, 115])@ =~= seq![106u8, 115]);
        }
        return "application/javascript";
    }
    proof {
        assert(([106u8, 115])@ =~= seq![106u8, 115]);
    }
    if bytes_eq(e, ([106u8, 115, 111, 110]).as_slice()) {  // json
        proof {
            assert(([106u8, 115, 111, 110])@ =~= seq![106u8, 115, 111, 110]);
        }
        return "application/json";
    }
    proof {
        assert(([106u8, 115, 111, 110])@ =~= seq![106u8, 115, 111, 110]);
    }
    if bytes_eq(e, ([112u8, 110, 103]).as_slice()) {  // png
        proof {
            assert(([112u8, 110, 103])@ =~= seq![112u8, 110, 103]);
        }
        return "image/png";
    }
    proof {
        assert(([112u8, 110, 103])@ =~= seq![112u8, 110, 103]);
    }
    if bytes_eq(e, ([106u8, 112, 103]).as_slice()) || bytes_eq(
        e,
        ([106u8, 112, 101, 103]).as_slice(),
    ) {  // jpg, jpeg
        proof {
            assert(([106u8, 112, 103])@ =~= seq![106u8, 112, 103]);
            assert(([106u8, 112, 101, 103])@ =~= seq![106u8, 112, 101, 103]);
        }
        return "image/jpeg";
    }
    proof {
        assert(([106u8, 112, 103])@ =~= seq![106u8, 112, 103]);
        assert(([106u8, 112, 101, 103])@ =~= seq![106u8, 112, 101, 103]);
    }
    if bytes_eq(e, ([103u8, 105, 102]).as_slice()) {  // gif
        proof {
            assert(([103u8, 105, 102])@ =~= seq![103u8, 105, 102]);
        }
        return "image/gif";
    }
    proof {
        assert(([103u8, 105, 102])@ =~= seq![103u8, 105, 102]);
    }
    if bytes_eq(e, ([115u8, 118, 103]).as_slice()) {  // svg
        proof {
            assert(([115u8, 118, 103])@ =~= seq![115u8, 118, 103]);
        }
        return "image/svg+xml";
    }
    proof {
        assert(([115u8, 118, 103])@ =~= seq![115u8, 118, 103]);
    }
    if bytes_eq(e, ([105u8, 99, 111]).as_slice()) {  // ico
        proof {
            assert(([105u8, 99, 111])@ =~= seq![105u8, 99, 111]);
        }
        return "image/x-icon";
    }
    proof {
        assert(([105u8, 99, 111])@ =~= seq![105u8, 99, 111]);
    }
    if bytes_eq(e, ([120u8, 109, 108]).as_slice()) {  // xml
        proof {
            assert(([120u8, 109, 108])@ =~= seq![120u8, 109, 108]);
        }
        return "application/xml";
    }
    proof {
        assert(([120u8, 109, 108])@ =~= seq![120u8, 109, 108]);
    }
    if bytes_eq(e, ([112u8, 100, 102]).as_slice()) {  // pdf
        proof {
            assert(([112u8, 100, 102])@ =~= seq![112u8, 100, 102]);
        }
        return "application/pdf";
    }
    proof {
        assert(([112u8, 100, 102])@ =~= seq![112u8, 100, 102]);
    }
    if bytes_eq(e, ([122u8, 105, 112]).as_slice()) {  // zip
        proof {
            assert(([122u8, 105, 112])@ =~= seq![122u8, 105, 112]);
        }
        return "application/zip";
    }
    proof {
        assert(([122u8, 105, 112])@ =~= seq![122u8, 105, 112]);
    }
    if bytes_eq(e, ([109u8, 112, 52]).as_slice()) {  // mp4
        proof {
            assert(([109u8, 112, 52])@ =~= seq![109u8, 112, 52]);
        }
        return "video/mp4";
    }
    proof {
        assert(([109u8, 112, 52])@ =~= seq![109u8, 112, 52]);
    }
    if bytes_eq(e, ([109u8, 111, 118]).as_slice()) {  // mov
        proof {
            assert(([109u8, 111, 118])@ =~= seq![109u8, 111, 118]);
        }
        return "video/quicktime";
    }
    proof {
        assert(([109u8, 111, 118])@ =~= seq![109u8, 111, 118]);
    }
    if bytes_eq(e, ([109u8, 112, 51]).as_slice()) {  // mp3
        proof {
            assert(([109u8, 112, 51])@ =~= seq![109u8, 112, 51]);
        }
        return "audio/mpeg";
    }
    proof {
        assert(([109u8, 112, 51])@ =~= seq![109u8, 112, 51]);
    }
    if bytes_eq(e, ([119u8, 97, 118]).as_slice()) {  // wav
        proof {
            assert(([119u8, 97, 118])@ =~= seq![119u8, 97, 118]);
        }
        return "audio/wav";
    }
    proof {
        assert(([119u8, 97, 118])@ =~= seq![119u8, 97, 118]);
    }
    if bytes_eq(e, ([111u8, 103, 103]).as_slice()) {  // ogg
        proof {
            assert(([111u8, 103, 103])@ =~= seq![111u8, 103, 103]);
        }
        return "audio/ogg";
    }
    proof {
        assert(([111u8, 103, 103])@ =~= seq![111u8, 103, 103]);
    }
    if bytes_eq(e, ([119u8, 101, 98, 112]).as_slice()) {  // webp
        proof {
            assert(([119u8, 101, 98, 112])@ =~= seq![119u8, 101, 98, 112]);
        }
        return "image/webp";
    }
    proof {
        assert(([119u8, 101, 98, 112])@ =~= seq![119u8, 101, 98, 112]);
    }
    "application/octet-stream"
}

} // verus!
