//! Reading a growing log: bytes assembled into lines, and the bookkeeping
//! of a poller that reads the file's new bytes in bounded slices.

use vstd::prelude::*;

verus! {

/// A partial line longer than this with no newline in sight is dropped.
pub const MAX_LINE_BYTES: usize = 65536;

/// Largest read per poll.
pub const MAX_POLL_BYTES: u64 = 1048576;

/// What `String::from_utf8_lossy` makes of `bytes`.
pub uninterp spec fn utf8_lossy_of(bytes: Seq<u8>) -> Seq<char>;

/// `bytes` decoded as UTF-8, each invalid sequence replaced by U+FFFD
/// (`String::from_utf8_lossy`). Stated: the result is a function of the
/// bytes, and ASCII bytes decode to the same characters. The decoding of
/// other byte sequences is left to the name.
#[verifier::external_body]
pub(crate) fn lossy_string(bytes: &[u8]) -> (s: String)
    ensures
        s@ == utf8_lossy_of(bytes@),
        (forall|i: int| 0 <= i < bytes@.len() ==> bytes@[i] < 0x80) ==> s@ == Seq::new(
            bytes@.len(),
            |i: int| bytes@[i] as char,
        ),
{
    String::from_utf8_lossy(bytes).into_owned()
}

/// The first index at or after `i` holding byte `b`.
pub open spec fn byte_from(s: Seq<u8>, b: u8, i: int) -> Option<int>
    decreases s.len() - i,
{
    if i < 0 || i >= s.len() {
        None
    } else if s[i] == b {
        Some(i)
    } else {
        byte_from(s, b, i + 1)
    }
}

pub proof fn lemma_byte_from(s: Seq<u8>, b: u8, i: int)
    requires
        0 <= i,
    ensures
        byte_from(s, b, i) matches Some(j) ==> i <= j < s.len() && s[j] == b && forall|k: int|
            i <= k < j ==> s[k] != b,
        byte_from(s, b, i) is None ==> forall|k: int| i <= k < s.len() ==> s[k] != b,
    decreases s.len() - i,
{
    if i < s.len() && s[i] != b {
        lemma_byte_from(s, b, i + 1);
    }
}

/// The complete lines of `buf` (without their newlines) and what follows
/// the last newline.
pub open spec fn split_lines(buf: Seq<u8>) -> (Seq<Seq<u8>>, Seq<u8>)
    decreases buf.len(),
{
    match byte_from(buf, 10, 0) {
        None => (Seq::empty(), buf),
        Some(p) => {
            proof {
                lemma_byte_from(buf, 10, 0);
            }
            let (ls, rest) = split_lines(buf.skip(p + 1));
            (seq![buf.take(p)] + ls, rest)
        },
    }
}

/// A line without one trailing carriage return.
pub open spec fn strip_cr_bytes(l: Seq<u8>) -> Seq<u8> {
    if l.len() > 0 && l.last() == 13 {
        l.drop_last()
    } else {
        l
    }
}

pub open spec fn decode_lines(ls: Seq<Seq<u8>>) -> Seq<Seq<char>>
    decreases ls.len(),
{
    if ls.len() == 0 {
        Seq::empty()
    } else {
        decode_lines(ls.drop_last()).push(utf8_lossy_of(strip_cr_bytes(ls.last())))
    }
}

/// Every byte below 0x80.
pub open spec fn all_ascii(b: Seq<u8>) -> bool {
    forall|i: int| 0 <= i < b.len() ==> b[i] < 0x80
}

/// ASCII bytes read as the characters they encode.
pub open spec fn ascii_chars(b: Seq<u8>) -> Seq<char> {
    Seq::new(b.len(), |i: int| b[i] as char)
}

/// `decode_lines` for lines of ASCII bytes: each byte is its character.
pub open spec fn ascii_lines(ls: Seq<Seq<u8>>) -> Seq<Seq<char>>
    decreases ls.len(),
{
    if ls.len() == 0 {
        Seq::empty()
    } else {
        ascii_lines(ls.drop_last()).push(ascii_chars(strip_cr_bytes(ls.last())))
    }
}

/// The buffer kept after a feed: the unterminated tail, unless it has
/// grown past the cap.
pub open spec fn kept_tail(rest: Seq<u8>) -> Seq<u8> {
    if rest.len() > MAX_LINE_BYTES {
        Seq::empty()
    } else {
        rest
    }
}

/// Feeding `chunk` after `partial`: the lines completed, and the new tail.
pub open spec fn feed_spec(partial: Seq<u8>, chunk: Seq<u8>) -> (Seq<u8>, Seq<Seq<char>>) {
    let (ls, rest) = split_lines(partial + chunk);
    (kept_tail(rest), decode_lines(ls))
}

pub struct LineAssembler {
    partial: Vec<u8>,
}

impl View for LineAssembler {
    type V = Seq<u8>;

    closed spec fn view(&self) -> Seq<u8> {
        self.partial@
    }
}

proof fn lemma_split_append(x: Seq<u8>, y: Seq<u8>)
    ensures
        split_lines(x + y) == {
            let (l1, r1) = split_lines(x);
            let (l2, r2) = split_lines(r1 + y);
            (l1 + l2, r2)
        },
    decreases x.len(),
{
    lemma_byte_from(x, 10, 0);
    lemma_byte_from(x + y, 10, 0);
    match byte_from(x, 10, 0) {
        None => {
            let (l2, r2) = split_lines(x + y);
            assert(Seq::<Seq<u8>>::empty() + l2 =~= l2);
        },
        Some(p) => {
            assert(byte_from(x + y, 10, 0) == Some(p)) by {
                assert((x + y)[p] == x[p]);
                assert forall|k: int| 0 <= k < p implies (x + y)[k] != 10 by {
                    assert((x + y)[k] == x[k]);
                }
                lemma_byte_from_first(x + y, p);
            }
            assert((x + y).take(p) =~= x.take(p));
            assert((x + y).skip(p + 1) =~= x.skip(p + 1) + y);
            lemma_split_append(x.skip(p + 1), y);
            let (l1, r1) = split_lines(x.skip(p + 1));
            let (l2, r2) = split_lines(r1 + y);
            assert(seq![x.take(p)] + (l1 + l2) =~= (seq![x.take(p)] + l1) + l2);
        },
    }
}

proof fn lemma_byte_from_first(s: Seq<u8>, p: int)
    requires
        0 <= p < s.len(),
        s[p] == 10,
        forall|k: int| 0 <= k < p ==> s[k] != 10,
    ensures
        byte_from(s, 10, 0) == Some(p),
{
    lemma_byte_from_step(s, 0, p);
}

proof fn lemma_byte_from_step(s: Seq<u8>, i: int, p: int)
    requires
        0 <= i <= p < s.len(),
        s[p] == 10,
        forall|k: int| i <= k < p ==> s[k] != 10,
    ensures
        byte_from(s, 10, i) == Some(p),
    decreases p - i,
{
    if i < p {
        lemma_byte_from_step(s, i + 1, p);
    }
}

proof fn lemma_decode_append(a: Seq<Seq<u8>>, b: Seq<Seq<u8>>)
    ensures
        decode_lines(a + b) == decode_lines(a) + decode_lines(b),
    decreases b.len(),
{
    if b.len() == 0 {
        assert(a + b =~= a);
        assert(decode_lines(a) + decode_lines(b) =~= decode_lines(a));
    } else {
        assert((a + b).drop_last() =~= a + b.drop_last());
        lemma_decode_append(a, b.drop_last());
        assert(decode_lines(a) + decode_lines(b.drop_last()).push(
            utf8_lossy_of(strip_cr_bytes(b.last())),
        ) =~= (decode_lines(a) + decode_lines(b.drop_last())).push(
            utf8_lossy_of(strip_cr_bytes(b.last())),
        ));
    }
}

proof fn lemma_ascii_append(a: Seq<Seq<u8>>, b: Seq<Seq<u8>>)
    ensures
        ascii_lines(a + b) == ascii_lines(a) + ascii_lines(b),
    decreases b.len(),
{
    if b.len() == 0 {
        assert(a + b =~= a);
        assert(ascii_lines(a) + ascii_lines(b) =~= ascii_lines(a));
    } else {
        assert((a + b).drop_last() =~= a + b.drop_last());
        lemma_ascii_append(a, b.drop_last());
        assert(ascii_lines(a) + ascii_lines(b.drop_last()).push(
            ascii_chars(strip_cr_bytes(b.last())),
        ) =~= (ascii_lines(a) + ascii_lines(b.drop_last())).push(
            ascii_chars(strip_cr_bytes(b.last())),
        ));
    }
}

/// Chunk boundaries do not matter: feeding `c1` then `c2` yields the lines
/// and the tail that feeding `c1 + c2` at once does, provided the tail
/// after `c1` was not dropped for length.
pub proof fn lemma_feed_split_invariant(partial: Seq<u8>, c1: Seq<u8>, c2: Seq<u8>)
    requires
        split_lines(partial + c1).1.len() <= MAX_LINE_BYTES,
    ensures
        ({
            let (p1, out1) = feed_spec(partial, c1);
            let (p2, out2) = feed_spec(p1, c2);
            feed_spec(partial, c1 + c2) == (p2, out1 + out2)
        }),
{
    let (l1, r1) = split_lines(partial + c1);
    assert(partial + (c1 + c2) =~= (partial + c1) + c2);
    lemma_split_append(partial + c1, c2);
    let (l2, r2) = split_lines(r1 + c2);
    lemma_decode_append(l1, l2);
}

impl LineAssembler {
    /// An assembler holding nothing.
    pub fn new() -> (a: Self)
        ensures
            a@ == Seq::<u8>::empty(),
    {
        let a = LineAssembler { partial: Vec::new() };
        assert(a@ =~= Seq::<u8>::empty());
        a
    }

    /// Appends `chunk` and returns the lines it completes (without `\n`
    /// or a `\r` before it, decoded lossily); the unterminated rest is
    /// kept for the next feed, or dropped once it grows past the cap.
    /// Lines of ASCII bytes come out as those very characters.
    pub fn feed(&mut self, chunk: &[u8]) -> (lines: Vec<String>)
        ensures
            final(self)@ == feed_spec(old(self)@, chunk@).0,
            lines.deep_view() == feed_spec(old(self)@, chunk@).1,
            all_ascii(old(self)@ + chunk@) ==> lines.deep_view() == ascii_lines(
                split_lines(old(self)@ + chunk@).0,
            ),
    {
        let ghost start_buf = self@ + chunk@;
        let mut buf: Vec<u8> = Vec::new();
        let mut i: usize = 0;
        while i < self.partial.len()
            invariant
                i <= self.partial.len(),
                buf@ == self.partial@.take(i as int),
            decreases self.partial.len() - i,
        {
            buf.push(self.partial[i]);
            i += 1;
            assert(buf@ =~= self.partial@.take(i as int));
        }
        let mut j: usize = 0;
        assert(self.partial@.take(self.partial@.len() as int) =~= self.partial@);
        while j < chunk.len()
            invariant
                j <= chunk@.len(),
                buf@ == self.partial@ + chunk@.take(j as int),
            decreases chunk@.len() - j,
        {
            buf.push(chunk[j]);
            j += 1;
            assert(buf@ =~= self.partial@ + chunk@.take(j as int));
        }
        assert(chunk@.take(chunk@.len() as int) =~= chunk@);
        assert(buf@ == start_buf);
        let mut lines: Vec<String> = Vec::new();
        let mut start: usize = 0;
        let mut k: usize = 0;
        assert(buf@.skip(0) =~= buf@);
        assert(lines.deep_view() + decode_lines(split_lines(start_buf).0) =~= decode_lines(
            split_lines(start_buf).0,
        ));
        assert(lines.deep_view() + ascii_lines(split_lines(start_buf).0) =~= ascii_lines(
            split_lines(start_buf).0,
        ));
        while k < buf.len()
            invariant
                start <= k <= buf.len(),
                buf@ == start_buf,
                byte_from(buf@, 10, start as int) == byte_from(buf@, 10, k as int),
                lines.deep_view() + decode_lines(split_lines(buf@.skip(start as int)).0) == decode_lines(
                    split_lines(start_buf).0,
                ),
                all_ascii(start_buf) ==> lines.deep_view() + ascii_lines(
                    split_lines(buf@.skip(start as int)).0,
                ) == ascii_lines(split_lines(start_buf).0),
                split_lines(buf@.skip(start as int)).1 == split_lines(start_buf).1,
            decreases buf.len() - k,
        {
            if buf[k] == 10 {
                proof {
                    lemma_byte_from(buf@, 10, start as int);
                    let s = buf@.skip(start as int);
                    lemma_byte_from_first(s, k - start);
                    assert(s.take(k - start) =~= buf@.subrange(start as int, k as int));
                    assert(s.skip(k - start + 1) =~= buf@.skip(k + 1));
                    let (ls, rest) = split_lines(buf@.skip(k + 1));
                    let l = buf@.subrange(start as int, k as int);
                    assert(split_lines(s) == (seq![l] + ls, rest));
                    lemma_decode_append(seq![l], ls);
                    lemma_ascii_append(seq![l], ls);
                    assert(seq![l].drop_last() =~= Seq::<Seq<u8>>::empty());
                    assert(seq![l].last() == l);
                    assert(decode_lines(seq![l].drop_last()) =~= Seq::<Seq<char>>::empty());
                    assert(decode_lines(seq![l]) =~= seq![utf8_lossy_of(strip_cr_bytes(l))]);
                    assert(ascii_lines(seq![l].drop_last()) =~= Seq::<Seq<char>>::empty());
                    assert(ascii_lines(seq![l]) =~= seq![ascii_chars(strip_cr_bytes(l))]);
                }
                let mut end = k;
                if end > start && buf[end - 1] == 13 {
                    end = end - 1;
                }
                let piece = vstd::slice::slice_subrange(buf.as_slice(), start, end);
                proof {
                    let l = buf@.subrange(start as int, k as int);
                    if k > start && buf@[k - 1] == 13 {
                        assert(piece@ =~= l.drop_last());
                    } else {
                        assert(piece@ =~= l);
                    }
                }
                proof {
                    if all_ascii(start_buf) {
                        assert forall|i: int| 0 <= i < piece@.len() implies piece@[i] < 0x80 by {
                            assert(piece@[i] == buf@[start + i]);
                        }
                    }
                }
                let s = lossy_string(piece);
                let ghost before = lines.deep_view();
                lines.push(s);
                proof {
                    assert(lines.deep_view() =~= before.push(s@));
                    let (ls, rest) = split_lines(buf@.skip(k + 1));
                    assert(before.push(s@) + decode_lines(ls) =~= before + (seq![s@] + decode_lines(ls)));
                    assert(before.push(s@) + ascii_lines(ls) =~= before + (seq![s@] + ascii_lines(ls)));
                    if all_ascii(start_buf) {
                        assert(s@ =~= ascii_chars(piece@));
                    }
                }
                start = k + 1;
            }
            k += 1;
        }
        proof {
            lemma_byte_from(buf@, 10, start as int);
            let s = buf@.skip(start as int);
            lemma_byte_from(s, 10, 0);
            assert forall|t: int| 0 <= t < s.len() implies s[t] != 10 by {
                assert(s[t] == buf@[start + t]);
            }
            assert(byte_from(s, 10, 0) is None);
            assert(lines.deep_view() + Seq::<Seq<char>>::empty() =~= lines.deep_view());
            assert(ascii_lines(Seq::<Seq<u8>>::empty()) =~= Seq::<Seq<char>>::empty());
        }
        let n = buf.len();
        let mut rest: Vec<u8> = Vec::new();
        if n - start <= MAX_LINE_BYTES {
            let mut t = start;
            while t < n
                invariant
                    start <= t <= n == buf.len(),
                    rest@ == buf@.subrange(start as int, t as int),
                decreases n - t,
            {
                rest.push(buf[t]);
                t += 1;
                assert(rest@ =~= buf@.subrange(start as int, t as int));
            }
            assert(buf@.subrange(start as int, n as int) =~= buf@.skip(start as int));
        } else {
            assert(rest@ =~= Seq::<u8>::empty());
        }
        self.partial = rest;
        lines
    }
}

/// Where a poller stands in the file it reads.
pub struct FilePoller {
    path: String,
    offset: u64,
    assembler: LineAssembler,
    max_poll_bytes: u64,
}

pub struct FilePollerView {
    pub path: Seq<char>,
    pub offset: u64,
    pub partial: Seq<u8>,
    pub max_poll_bytes: u64,
}

impl View for FilePoller {
    type V = FilePollerView;

    closed spec fn view(&self) -> FilePollerView {
        FilePollerView {
            path: self.path@,
            offset: self.offset,
            partial: self.assembler@,
            max_poll_bytes: self.max_poll_bytes,
        }
    }
}

/// The read a poll makes of a file now `len` bytes long: from where (a
/// file shorter than the offset was replaced, and is read from the start
/// with nothing held over) and how many bytes at most.
pub open spec fn plan_spec(p: FilePollerView, len: u64) -> (FilePollerView, u64) {
    let p1 = if len < p.offset {
        FilePollerView { path: p.path, offset: 0, partial: Seq::empty(), max_poll_bytes: p.max_poll_bytes }
    } else {
        p
    };
    let avail = (len - p1.offset) as u64;
    (p1, if avail < p1.max_poll_bytes { avail } else { p1.max_poll_bytes })
}

impl FilePoller {
    /// A poller of `path` starting at byte `offset` (the file's length to
    /// skip what it already holds, or 0).
    pub fn at_offset(path: String, offset: u64) -> (p: Self)
        ensures
            p@.offset == offset,
            p@.partial == Seq::<u8>::empty(),
            p@.max_poll_bytes == MAX_POLL_BYTES,
            p@.path == path@,
    {
        FilePoller { path, offset, assembler: LineAssembler::new(), max_poll_bytes: MAX_POLL_BYTES }
    }

    /// The same poller with another per-poll read cap.
    pub fn with_max_poll_bytes(self, cap: u64) -> (p: Self)
        ensures
            p@ == (FilePollerView { max_poll_bytes: cap, ..self@ }),
    {
        FilePoller { max_poll_bytes: cap, ..self }
    }

    /// The file this poller reads.
    pub fn path(&self) -> (p: &str)
        ensures
            p@ == self@.path,
    {
        self.path.as_str()
    }

    pub fn offset(&self) -> (o: u64)
        ensures
            o == self@.offset,
    {
        self.offset
    }

    /// Prepares a poll of a file now `len` bytes long; returns how many
    /// bytes to read from `offset()` (none when nothing is new).
    pub fn plan_read(&mut self, len: u64) -> (n: u64)
        ensures
            (final(self)@, n) == plan_spec(old(self)@, len),
    {
        if len < self.offset {
            self.offset = 0;
            self.assembler = LineAssembler::new();
        }
        let avail = len - self.offset;
        if avail < self.max_poll_bytes {
            avail
        } else {
            self.max_poll_bytes
        }
    }

    /// Takes the bytes read and returns the lines they complete.
    pub fn take_read(&mut self, buf: &[u8]) -> (lines: Vec<String>)
        requires
            old(self)@.offset + buf@.len() <= u64::MAX,
        ensures
            final(self)@.offset == old(self)@.offset + buf@.len(),
            final(self)@.max_poll_bytes == old(self)@.max_poll_bytes,
            final(self)@.partial == feed_spec(old(self)@.partial, buf@).0,
            lines.deep_view() == feed_spec(old(self)@.partial, buf@).1,
            final(self)@.path == old(self)@.path,
    {
        self.offset = self.offset + buf.len() as u64;
        self.assembler.feed(buf)
    }
}

} // verus!
