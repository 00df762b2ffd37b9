//! Frames: reassembly from a byte stream, and tokenizing of one frame.

use vstd::prelude::*;

verus! {

/// Unicode white space, as `str::trim` removes it.
pub open spec fn is_space(c: char) -> bool {
    ('\u{9}' <= c && c <= '\u{d}') || c == ' ' || c == '\u{85}' || c == '\u{a0}' || c == '\u{1680}'
        || ('\u{2000}' <= c && c <= '\u{200a}') || c == '\u{2028}' || c == '\u{2029}' || c
        == '\u{202f}' || c == '\u{205f}' || c == '\u{3000}'
}

pub open spec fn trim_start(s: Seq<char>) -> Seq<char>
    decreases s.len(),
{
    if s.len() > 0 && is_space(s[0]) {
        trim_start(s.drop_first())
    } else {
        s
    }
}

pub open spec fn trim_end(s: Seq<char>) -> Seq<char>
    decreases s.len(),
{
    if s.len() > 0 && is_space(s.last()) {
        trim_end(s.drop_last())
    } else {
        s
    }
}

/// Text without leading and trailing white space.
pub open spec fn trim(s: Seq<char>) -> Seq<char> {
    trim_end(trim_start(s))
}

/// The pieces of `s` between newlines; there is always at least one.
pub open spec fn split_lines(s: Seq<char>) -> Seq<Seq<char>>
    decreases s.len(),
{
    if s.len() == 0 {
        seq![Seq::empty()]
    } else {
        let p = split_lines(s.drop_last());
        if s.last() == '\n' {
            p.push(Seq::empty())
        } else {
            p.update(p.len() - 1, p.last().push(s.last()))
        }
    }
}

/// Whether a raw frame is well formed: not empty and ending in `;`.
pub open spec fn frame_ok(frame: Seq<char>) -> bool {
    frame.len() > 0 && frame.last() == ';'
}

/// The tokens of a well-formed frame: the text before its `;`, trimmed,
/// split at newlines, each piece trimmed.
pub open spec fn tokens_of(frame: Seq<char>) -> Seq<Seq<char>> {
    split_lines(trim(frame.drop_last())).map_values(|t: Seq<char>| trim(t))
}

pub open spec fn views(v: Seq<Vec<char>>) -> Seq<Seq<char>> {
    v.map_values(|t: Vec<char>| t@)
}

fn space(c: char) -> (r: bool)
    ensures
        r == is_space(c),
{
    ('\u{9}' <= c && c <= '\u{d}') || c == ' ' || c == '\u{85}' || c == '\u{a0}' || c == '\u{1680}'
        || ('\u{2000}' <= c && c <= '\u{200a}') || c == '\u{2028}' || c == '\u{2029}' || c
        == '\u{202f}' || c == '\u{205f}' || c == '\u{3000}'
}

/// Bounds of the trimmed part of `s[lo..hi]`.
fn trim_bounds(s: &Vec<char>, lo: usize, hi: usize) -> (r: (usize, usize))
    requires
        lo <= hi <= s.len(),
    ensures
        lo <= r.0 <= r.1 <= hi,
        s@.subrange(r.0 as int, r.1 as int) == trim(s@.subrange(lo as int, hi as int)),
{
    let mut a: usize = lo;
    while a < hi && space(s[a])
        invariant
            lo <= a <= hi <= s.len(),
            trim_start(s@.subrange(a as int, hi as int)) == trim_start(
                s@.subrange(lo as int, hi as int),
            ),
        decreases hi - a,
    {
        assert(s@.subrange(a as int, hi as int).drop_first() =~= s@.subrange(a + 1, hi as int));
        a = a + 1;
    }
    let mut b: usize = hi;
    while b > a && space(s[b - 1])
        invariant
            lo <= a <= b <= hi <= s.len(),
            trim_end(s@.subrange(a as int, b as int)) == trim_end(s@.subrange(a as int, hi as int)),
        decreases b - a,
    {
        assert(s@.subrange(a as int, b as int).drop_last() =~= s@.subrange(a as int, b - 1));
        b = b - 1;
    }
    (a, b)
}

fn copy_range(s: &Vec<char>, a: usize, b: usize) -> (r: Vec<char>)
    requires
        a <= b <= s.len(),
    ensures
        r@ == s@.subrange(a as int, b as int),
{
    let mut r: Vec<char> = Vec::new();
    let mut i: usize = a;
    while i < b
        invariant
            a <= i <= b <= s.len(),
            r@ == s@.subrange(a as int, i as int),
        decreases b - i,
    {
        r.push(s[i]);
        assert(r@ =~= s@.subrange(a as int, i + 1));
        i = i + 1;
    }
    r
}

/// Splits a well-formed frame into its tokens.
pub fn tokenize(frame: &Vec<char>) -> (r: Vec<Vec<char>>)
    requires
        frame_ok(frame@),
    ensures
        views(r@) == tokens_of(frame@),
{
    let (a, b) = trim_bounds(frame, 0, frame.len() - 1);
    let ghost body = frame@.subrange(a as int, b as int);
    assert(frame@.subrange(0, frame.len() - 1) =~= frame@.drop_last());
    let mut parts: Vec<Vec<char>> = Vec::new();
    let mut start: usize = a;
    let mut i: usize = a;
    assert(views(parts@).push(frame@.subrange(a as int, a as int)) =~= split_lines(
        frame@.subrange(a as int, a as int),
    )) by {
        assert(frame@.subrange(a as int, a as int) =~= Seq::<char>::empty());
    };
    while i < b
        invariant
            a <= start <= i <= b < frame.len(),
            body == frame@.subrange(a as int, b as int),
            views(parts@).push(frame@.subrange(start as int, i as int)) == split_lines(
                frame@.subrange(a as int, i as int),
            ),
        decreases b - i,
    {
        let ghost prev = frame@.subrange(a as int, i as int);
        assert(frame@.subrange(a as int, i + 1).drop_last() =~= prev);
        if frame[i] == '\n' {
            let piece = copy_range(frame, start, i);
            let ghost before = parts@;
            parts.push(piece);
            assert(views(parts@) =~= views(before).push(piece@));
            start = i + 1;
            assert(frame@.subrange(start as int, i + 1) =~= Seq::<char>::empty());
        } else {
            assert(frame@.subrange(start as int, i + 1) =~= frame@.subrange(start as int, i as int).push(frame@[i as int]));
        }
        i = i + 1;
    }
    let last = copy_range(frame, start, b);
    parts.push(last);
    let mut out: Vec<Vec<char>> = Vec::new();
    let mut j: usize = 0;
    while j < parts.len()
        invariant
            j <= parts.len(),
            views(out@) == views(parts@).subrange(0, j as int).map_values(|t: Seq<char>| trim(t)),
        decreases parts.len() - j,
    {
        let (x, y) = trim_bounds(&parts[j], 0, parts[j].len());
        assert(parts[j as int]@.subrange(0, parts[j as int]@.len() as int) =~= parts[j as int]@);
        let t = copy_range(&parts[j], x, y);
        assert(t@ == trim(views(parts@)[j as int]));
        let ghost before = out@;
        out.push(t);
        assert(views(out@) =~= views(before).push(t@));
        assert(views(out@) =~= views(parts@).subrange(0, j + 1).map_values(|t: Seq<char>| trim(t)));
        j = j + 1;
    }
    assert(views(parts@).subrange(0, parts.len() as int) =~= views(parts@));
    out
}

/// The default cap on bytes held while waiting for a frame's `;`.
pub const MAX_PENDING: usize = 4096;

pub open spec fn no_terminator(s: Seq<u8>) -> bool {
    forall|i: int| 0 <= i < s.len() ==> s[i] != 59u8
}

/// Reassembles `;`-terminated frames from the bytes of a stream.
pub struct FrameBuffer {
    buf: Vec<u8>,
    limit: usize,
}

impl View for FrameBuffer {
    type V = Seq<u8>;

    closed spec fn view(&self) -> Seq<u8> {
        self.buf@
    }
}

impl FrameBuffer {
    /// The most bytes that may wait for a terminator.
    pub closed spec fn limit(&self) -> nat {
        self.limit as nat
    }

    pub fn new(limit: usize) -> (r: Self)
        ensures
            r@ == Seq::<u8>::empty(),
            r.limit() == limit,
    {
        FrameBuffer { buf: Vec::new(), limit }
    }

    /// Appends bytes read from the stream. Returns false, and keeps nothing of
    /// `data`, when the pending bytes would exceed the limit.
    pub fn push(&mut self, data: &[u8]) -> (r: bool)
        ensures
            final(self).limit() == old(self).limit(),
            r == (old(self)@.len() + data@.len() <= old(self).limit()),
            r ==> final(self)@ == old(self)@ + data@,
            !r ==> final(self)@ == old(self)@,
    {
        if data.len() > self.limit || self.buf.len() > self.limit - data.len() {
            return false;
        }
        let ghost start = self.buf@;
        let mut i: usize = 0;
        while i < data.len()
            invariant
                i <= data.len(),
                self.buf@ == start + data@.subrange(0, i as int),
                self.limit == old(self).limit,
            decreases data.len() - i,
        {
            self.buf.push(data[i]);
            assert(self.buf@ =~= start + data@.subrange(0, i + 1));
            i = i + 1;
        }
        assert(data@.subrange(0, data.len() as int) =~= data@);
        true
    }

    /// Takes the first complete frame, its `;` included, off the front of the
    /// pending bytes; `None` while no `;` has arrived.
    pub fn next_frame(&mut self) -> (r: Option<Vec<u8>>)
        ensures
            final(self).limit() == old(self).limit(),
            r is None <==> no_terminator(old(self)@),
            r is None ==> final(self)@ == old(self)@,
            r matches Some(f) ==> {
                &&& f@.len() > 0
                &&& f@.last() == 59u8
                &&& no_terminator(f@.drop_last())
                &&& old(self)@ == f@ + final(self)@
            },
    {
        let mut p: usize = 0;
        while p < self.buf.len() && self.buf[p] != 59u8
            invariant
                p <= self.buf.len(),
                forall|j: int| 0 <= j < p ==> self.buf@[j] != 59u8,
            decreases self.buf.len() - p,
        {
            p = p + 1;
        }
        if p == self.buf.len() {
            return None;
        }
        let mut frame: Vec<u8> = Vec::new();
        let mut rest: Vec<u8> = Vec::new();
        let mut i: usize = 0;
        let n = self.buf.len();
        while i < n
            invariant
                p < n == self.buf.len(),
                i <= n,
                frame@ == self.buf@.subrange(0, if i <= p { i as int } else { p + 1 }),
                i <= p ==> rest@ == Seq::<u8>::empty(),
                i > p ==> rest@ == self.buf@.subrange(p + 1, i as int),
            decreases n - i,
        {
            if i <= p {
                frame.push(self.buf[i]);
                assert(frame@ =~= self.buf@.subrange(0, if i + 1 <= p { i + 1 } else { p + 1 }));
                assert(i == p ==> rest@ =~= self.buf@.subrange(p + 1, i + 1));
            } else {
                rest.push(self.buf[i]);
                assert(rest@ =~= self.buf@.subrange(p + 1, i + 1));
            }
            i = i + 1;
        }
        assert(frame@.drop_last() =~= self.buf@.subrange(0, p as int));
        assert(self.buf@ =~= frame@ + rest@);
        self.buf = rest;
        Some(frame)
    }
}

} // verus!
