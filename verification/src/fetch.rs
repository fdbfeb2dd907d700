//! Chunked, range-based retrieval of large binary resources.
//!
//! A transport with a fixed per-call response ceiling cannot hand back a
//! large image in one response, so the resource is pulled as a sequence of
//! byte ranges of `CHUNK_MAX` bytes each.  The protocol state lives in
//! [`ChunkedFetcher`]; the caller issues one range request per round and
//! feeds each response back through [`ChunkedFetcher::on_chunk`].  The total
//! size of the resource is learned from the `Content-Range` header of the
//! first response (`<unit> <range>/<total>`; only the suffix after `/` is
//! read).  A round ceiling bounds the degenerate case of a server that never
//! sends a parseable total.

use vstd::prelude::*;
use crate::Error;

verus! {

/// Fixed per-call response ceiling of the transport: one range request asks
/// for at most this many bytes.
pub const CHUNK_MAX: u64 = 2 * 1024 * 1024;

/// Ceiling on the number of rounds of one fetch, so that a server that never
/// reports a usable total size cannot keep the loop alive forever.
pub const MAX_FETCH_ROUNDS: u64 = 64;

/// True for the code points of the ASCII digits.
pub open spec fn is_digit_char(c: char) -> bool {
    48 <= c as u32 <= 57
}

/// Numeric value of one ASCII digit.
pub open spec fn digit_val(c: char) -> nat {
    (c as u32 - 48) as nat
}

pub open spec fn all_digits(s: Seq<char>) -> bool {
    forall|i: int| 0 <= i < s.len() ==> is_digit_char(s[i])
}

/// Value of a sequence of ASCII digits read as a decimal number.
pub open spec fn digits_val(s: Seq<char>) -> nat
    decreases s.len(),
{
    if s.len() == 0 {
        0
    } else {
        digits_val(s.drop_last()) * 10 + digit_val(s.last())
    }
}

/// Whether `s` holds exactly one `/`.
pub open spec fn has_one_slash(s: Seq<char>) -> bool {
    &&& exists|i: int| 0 <= i < s.len() && s[i] == '/'
    &&& forall|i: int, j: int|
        0 <= i < s.len() && 0 <= j < s.len() && s[i] == '/' && s[j] == '/' ==> i == j
}

/// Index of the slash when there is exactly one.
pub open spec fn slash_index(s: Seq<char>) -> int {
    choose|i: int| 0 <= i < s.len() && s[i] == '/'
}

/// What a `Content-Range` header value yields: the decimal total after the
/// single `/`, provided the suffix is a nonempty digit string whose value
/// fits in `u64`.
pub open spec fn content_range_total(s: Seq<char>) -> Option<u64> {
    if has_one_slash(s) {
        let t = s.subrange(slash_index(s) + 1, s.len() as int);
        if t.len() > 0 && all_digits(t) && digits_val(t) <= u64::MAX {
            Some(digits_val(t) as u64)
        } else {
            None
        }
    } else {
        None
    }
}

/// ASCII lower-casing of a code point, for case-insensitive header names.
pub open spec fn lower_u32(c: char) -> u32 {
    if 65 <= c as u32 <= 90 {
        (c as u32 + 32) as u32
    } else {
        c as u32
    }
}

/// Equality of two character sequences up to ASCII case.
pub open spec fn ci_equal(a: Seq<char>, b: Seq<char>) -> bool {
    a.len() == b.len() && forall|i: int| 0 <= i < a.len() ==> lower_u32(a[i]) == lower_u32(b[i])
}

pub open spec fn is_content_range_name(name: Seq<char>) -> bool {
    ci_equal(name, "content-range"@)
}

/// The total size reported by a header list: the value of the last
/// `Content-Range` header (name compared case-insensitively) whose value
/// parses, if any.
pub open spec fn headers_total(hs: Seq<(String, String)>) -> Option<u64>
    decreases hs.len(),
{
    if hs.len() == 0 {
        None
    } else if is_content_range_name(hs.last().0@) && content_range_total(hs.last().1@) is Some {
        content_range_total(hs.last().1@)
    } else {
        headers_total(hs.drop_last())
    }
}

proof fn lemma_digits_val_take_monotone(s: Seq<char>, m: int)
    requires
        0 <= m <= s.len(),
    ensures
        digits_val(s.take(m)) <= digits_val(s),
    decreases s.len() - m,
{
    if m < s.len() {
        if m == s.len() - 1 {
            assert(s.take(m) =~= s.drop_last());
        } else {
            assert(s.drop_last().take(m) =~= s.take(m));
            lemma_digits_val_take_monotone(s.drop_last(), m);
        }
    } else {
        assert(s.take(m) =~= s);
    }
}

/// Reads the decimal total out of a `Content-Range` header value of the
/// form `<unit> <range>/<total>`: the part after the single `/` must be a
/// nonempty string of digits whose value fits in `u64`.
pub fn parse_content_range(header: &str) -> (r: Option<u64>)
    ensures
        r == content_range_total(header@),
{
    let ghost s = header@;
    let n = header.unicode_len();
    // Find the slash, insisting that it is the only one.
    let mut i: usize = 0;
    let mut first: Option<usize> = None;
    let mut doubled: bool = false;
    while i < n
        invariant
            0 <= i <= n,
            n == s.len(),
            s == header@,
            first is None ==> (forall|j: int| 0 <= j < i ==> s[j] != '/'),
            first matches Some(k) ==> 0 <= k < i && s[k as int] == '/'
                && (forall|j: int| 0 <= j < k ==> s[j] != '/'),
            !doubled ==> (first matches Some(k) ==>
                (forall|j: int| k < j < i ==> s[j] != '/')),
            doubled ==> (first matches Some(k)
                && exists|j: int| k < j < i && s[j] == '/'),
        decreases n - i,
    {
        let c = header.get_char(i);
        if c == '/' {
            if first.is_none() {
                first = Some(i);
            } else {
                doubled = true;
            }
        }
        i += 1;
    }
    if doubled {
        proof {
            let k = first->Some_0 as int;
            let j = choose|j: int| k < j < n && s[j] == '/';
            assert(s[k] == '/' && s[j] == '/' && k != j);
            assert(!has_one_slash(s));
        }
        return None;
    }
    let k = match first {
        Some(k) => k,
        None => {
            proof {
                assert(!has_one_slash(s));
            }
            return None;
        },
    };
    proof {
        assert(has_one_slash(s)) by {
            assert(0 <= k < s.len() && s[k as int] == '/');
        }
        // The chosen witness must be the unique slash.
        let w = slash_index(s);
        assert(0 <= w < s.len() && s[w] == '/');
        assert(w == k as int);
    }
    let ghost t = s.subrange(k as int + 1, n as int);
    if k + 1 == n {
        proof {
            assert(t.len() == 0);
        }
        return None;
    }
    let mut val: u64 = 0;
    let mut p: usize = k + 1;
    while p < n
        invariant
            k + 1 <= p <= n,
            n == s.len(),
            s == header@,
            has_one_slash(s),
            slash_index(s) == k as int,
            t == s.subrange(k as int + 1, n as int),
            t.len() > 0,
            all_digits(t.take(p - k - 1)),
            val == digits_val(t.take(p - k - 1)),
        decreases n - p,
    {
        let c = header.get_char(p);
        let d = c as u32;
        let ghost m = p - k - 1;
        proof {
            assert(t[m as int] == s[p as int]);
        }
        if d < 48 || d > 57 {
            proof {
                assert(!is_digit_char(t[m as int]));
                assert(!all_digits(t));
            }
            return None;
        }
        let dd = (d - 48) as u64;
        proof {
            assert(t.take(m + 1).drop_last() =~= t.take(m as int));
            assert(t.take(m + 1).last() == t[m as int]);
            assert(digits_val(t.take(m + 1)) == digits_val(t.take(m as int)) * 10 + digit_val(t[m as int]));
        }
        if val > (u64::MAX - dd) / 10 {
            proof {
                assert(val * 10 + dd > u64::MAX) by (nonlinear_arith)
                    requires
                        val > (u64::MAX - dd) / 10,
                        dd <= 9,
                ;
                lemma_digits_val_take_monotone(t, m + 1);
                assert(digits_val(t) > u64::MAX);
            }
            return None;
        }
        proof {
            assert(val * 10 + dd <= u64::MAX) by (nonlinear_arith)
                requires
                    val <= (u64::MAX - dd) / 10,
                    dd <= 9,
            ;
        }
        val = val * 10 + dd;
        p += 1;
    }
    proof {
        assert(t.take(n - k - 1) =~= t);
    }
    Some(val)
}

/// Compares two strings for equality up to ASCII case, the way header names
/// are matched.
pub fn eq_ignore_ascii_case_chars(a: &str, b: &str) -> (r: bool)
    ensures
        r == ci_equal(a@, b@),
{
    let na = a.unicode_len();
    let nb = b.unicode_len();
    if na != nb {
        return false;
    }
    let mut i: usize = 0;
    while i < na
        invariant
            0 <= i <= na,
            na == a@.len(),
            na == b@.len(),
            forall|j: int| 0 <= j < i ==> lower_u32(a@[j]) == lower_u32(b@[j]),
        decreases na - i,
    {
        let ca = a.get_char(i) as u32;
        let cb = b.get_char(i) as u32;
        let la = if 65 <= ca && ca <= 90 { ca + 32 } else { ca };
        let lb = if 65 <= cb && cb <= 90 { cb + 32 } else { cb };
        if la != lb {
            return false;
        }
        i += 1;
    }
    true
}

/// Scans a response's headers for the total resource size: the last
/// `Content-Range` header with a parseable `/<total>` suffix wins.
pub fn find_content_range_total(headers: &Vec<(String, String)>) -> (r: Option<u64>)
    ensures
        r == headers_total(headers@),
{
    let n = headers.len();
    let mut r: Option<u64> = None;
    let mut i: usize = 0;
    while i < n
        invariant
            0 <= i <= n,
            n == headers@.len(),
            r == headers_total(headers@.take(i as int)),
        decreases n - i,
    {
        let name: &String = &headers[i].0;
        let value: &String = &headers[i].1;
        let parsed = if eq_ignore_ascii_case_chars(name.as_str(), "content-range") {
            parse_content_range(value.as_str())
        } else {
            None
        };
        proof {
            assert(headers@.take(i + 1).drop_last() =~= headers@.take(i as int));
            assert(headers@.take(i + 1).last() == headers@[i as int]);
        }
        if let Some(total) = parsed {
            r = Some(total);
        }
        i += 1;
    }
    proof {
        assert(headers@.take(n as int) =~= headers@);
    }
    r
}

/// The chunk a well-behaved server returns for the range starting at
/// `offset`: the next `CHUNK_MAX` bytes of the resource, shorter at the end.
pub open spec fn chunk_at(resource: Seq<u8>, offset: int) -> Seq<u8> {
    if offset >= resource.len() {
        Seq::empty()
    } else if offset + CHUNK_MAX <= resource.len() {
        resource.subrange(offset, offset + CHUNK_MAX)
    } else {
        resource.subrange(offset, resource.len() as int)
    }
}

/// Protocol state of one chunked fetch.
///
/// `offset` always advances by exactly `CHUNK_MAX` per accepted chunk — the
/// final, shorter chunk still advances it past `total_size`, which is what
/// ends the loop.  `total_size` stays `0` until a response reports it.
pub struct ChunkedFetcher {
    pub offset: u64,
    pub total_size: u64,
    pub data: Vec<u8>,
    pub rounds: u64,
}

impl ChunkedFetcher {
    /// Bookkeeping invariant: the offset is exactly the number of accepted
    /// chunks times the chunk ceiling, and the round ceiling is respected.
    pub open spec fn wf(self) -> bool {
        &&& self.offset == self.rounds * CHUNK_MAX
        &&& self.rounds <= MAX_FETCH_ROUNDS
    }

    /// The fetch is complete once the known total has been covered.
    pub open spec fn complete(self) -> bool {
        self.total_size != 0 && self.offset >= self.total_size
    }

    /// Ties the protocol state to the resource being fetched from a
    /// well-behaved server: the buffer is exactly the prefix of the
    /// resource covered so far.
    pub open spec fn tracks(self, resource: Seq<u8>) -> bool {
        &&& resource.len() > 0
        &&& self.total_size != 0 ==> self.total_size == resource.len()
        &&& self.total_size == 0 ==> self.offset == 0 && self.data@.len() == 0
        &&& self.data@ == resource.take(
            if self.offset <= resource.len() { self.offset as int } else { resource.len() as int },
        )
    }

    pub fn new() -> (r: Self)
        ensures
            r.offset == 0,
            r.total_size == 0,
            r.data@ == Seq::<u8>::empty(),
            r.rounds == 0,
            r.wf(),
            !r.complete(),
    {
        ChunkedFetcher { offset: 0, total_size: 0, data: Vec::new(), rounds: 0 }
    }

    pub fn done(&self) -> (b: bool)
        ensures
            b == self.complete(),
    {
        self.total_size != 0 && self.offset >= self.total_size
    }

    /// True once the round ceiling forbids another request: the caller must
    /// give up on the fetch rather than loop forever on a server that never
    /// reports a total size.
    pub fn exhausted(&self) -> (b: bool)
        ensures
            b == (self.rounds >= MAX_FETCH_ROUNDS),
    {
        self.rounds >= MAX_FETCH_ROUNDS
    }

    /// The byte range to request next: `CHUNK_MAX` bytes from the current
    /// offset, closed at both ends.
    pub fn next_range(&self) -> (r: (u64, u64))
        requires
            self.wf(),
            !self.complete(),
            self.rounds < MAX_FETCH_ROUNDS,
        ensures
            r.0 == self.offset,
            r.1 == self.offset + CHUNK_MAX - 1,
    {
        proof {
            assert(self.offset <= MAX_FETCH_ROUNDS * CHUNK_MAX) by (nonlinear_arith)
                requires
                    self.offset == self.rounds * CHUNK_MAX,
                    self.rounds <= MAX_FETCH_ROUNDS,
                    CHUNK_MAX == 2 * 1024 * 1024,
                    MAX_FETCH_ROUNDS == 64,
            ;
        }
        (self.offset, self.offset + CHUNK_MAX - 1)
    }

    /// Feeds one transport response into the protocol.
    ///
    /// A response with status 200 or 206 is accepted: the total size is
    /// learned from the headers while still unknown, the body is appended,
    /// and the offset advances by `CHUNK_MAX`.  Any other status aborts the
    /// fetch with `ImageNotDownloaded` and leaves the state unchanged;
    /// partial progress is never returned to the caller.
    pub fn on_chunk(&mut self, status: u64, headers: &Vec<(String, String)>, body: Vec<u8>) -> (r: Result<
        (),
        Error,
    >)
        requires
            old(self).wf(),
            !old(self).complete(),
            old(self).rounds < MAX_FETCH_ROUNDS,
        ensures
            final(self).wf(),
            status == 200 || status == 206 ==> {
                &&& r matches Ok(())
                &&& final(self).total_size == if old(self).total_size == 0 {
                    match headers_total(headers@) {
                        Some(t) => t,
                        None => 0u64,
                    }
                } else {
                    old(self).total_size
                }
                &&& final(self).data@ == old(self).data@ + body@
                &&& final(self).offset == old(self).offset + CHUNK_MAX
                &&& final(self).rounds == old(self).rounds + 1
            },
            !(status == 200 || status == 206) ==> {
                &&& r matches Err(e) && e is ImageNotDownloaded
                &&& *final(self) == *old(self)
            },
    {
        if status == 200 || status == 206 {
            if self.total_size == 0 {
                if let Some(total) = find_content_range_total(headers) {
                    self.total_size = total;
                }
            }
            let mut body = body;
            self.data.append(&mut body);
            proof {
                assert(self.offset + CHUNK_MAX <= u64::MAX) by (nonlinear_arith)
                    requires
                        self.offset == self.rounds * CHUNK_MAX,
                        self.rounds < MAX_FETCH_ROUNDS,
                        CHUNK_MAX == 2 * 1024 * 1024,
                        MAX_FETCH_ROUNDS == 64,
                ;
                assert((self.rounds + 1) * CHUNK_MAX == self.rounds * CHUNK_MAX + CHUNK_MAX)
                    by (nonlinear_arith);
            }
            self.offset = self.offset + CHUNK_MAX;
            self.rounds = self.rounds + 1;
            Ok(())
        } else {
            Err(Error::ImageNotDownloaded {
                msg: String::from_str("fetch aborted: unexpected transport status"),
            })
        }
    }
}

/// Chunk reassembly, base case: a fresh fetch state tracks any nonempty
/// resource — nothing has been requested and nothing buffered.
pub proof fn lemma_fetch_start(st: ChunkedFetcher, resource: Seq<u8>)
    requires
        st.offset == 0,
        st.total_size == 0,
        st.data@ == Seq::<u8>::empty(),
        resource.len() > 0,
    ensures
        st.tracks(resource),
{
    assert(st.data@ =~= resource.take(0));
}

/// Chunk reassembly, step case: an accepted chunk from a well-behaved server
/// keeps the buffer equal to the covered prefix of the resource.
///
/// `pre` and `post` are the protocol states around one accepted response
/// whose body was the requested chunk and whose headers reported the
/// resource's true size, exactly as `on_chunk`'s contract describes them.
pub proof fn lemma_chunk_step_tracks(
    pre: ChunkedFetcher,
    post: ChunkedFetcher,
    resource: Seq<u8>,
    body: Seq<u8>,
    reported: Option<u64>,
)
    requires
        pre.tracks(resource),
        !pre.complete(),
        body == chunk_at(resource, pre.offset as int),
        reported == Some(resource.len() as u64),
        resource.len() <= u64::MAX,
        post.total_size == if pre.total_size == 0 {
            match reported {
                Some(t) => t,
                None => 0u64,
            }
        } else {
            pre.total_size
        },
        post.data@ == pre.data@ + body,
        post.offset == pre.offset + CHUNK_MAX,
    ensures
        post.tracks(resource),
{
    let n = resource.len() as int;
    let off = pre.offset as int;
    if pre.total_size == 0 {
        assert(off == 0);
    }
    assert(off < n);
    if off + CHUNK_MAX <= n {
        assert(post.data@ =~= resource.take(off + CHUNK_MAX));
    } else {
        assert(post.data@ =~= resource.take(n));
    }
}

/// Chunk reassembly, final step: once the fetch is complete, the buffer is
/// the whole resource, byte for byte.
pub proof fn lemma_fetch_complete(st: ChunkedFetcher, resource: Seq<u8>)
    requires
        st.tracks(resource),
        st.complete(),
    ensures
        st.data@ == resource,
{
    assert(st.data@ =~= resource.take(resource.len() as int));
    assert(resource.take(resource.len() as int) =~= resource);
}

} // verus!
