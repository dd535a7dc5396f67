//! Source locations.
use crate::text::{join_str, decimal, decimal_v, repeat_str, repeat_v, string_from_utf8};
use vstd::prelude::*;
use vstd::utf8::{decode_utf8, valid_utf8};

verus! {

/// A region of a source file: bytes `lo..hi`, and the row and column recorded with it.
#[derive(Debug, Clone, Copy)]
pub struct Span {
    pub file: &'static str,
    pub lo: usize,
    pub hi: usize,
    pub row: usize,
    pub col: usize,
}

/// A value together with the region of source it came from.
#[derive(Debug, Clone, Copy)]
pub struct Spanned<T> {
    pub inner: T,
    pub span: Span,
}

/// The mathematical value of a `Spanned<T>`.
pub struct SpannedV<V> {
    pub inner: V,
    pub span: Span,
}

impl<T: View> View for Spanned<T> {
    type V = SpannedV<T::V>;

    open spec fn view(&self) -> SpannedV<T::V> {
        SpannedV { inner: self.inner@, span: self.span }
    }
}

/// The empty span of no file.
pub open spec fn default_span() -> Span {
    Span { file: "", lo: 0, hi: 0, row: 0, col: 0 }
}

/// The smallest span covering both; row and column come from the one that starts first.
pub open spec fn merge_v(a: Span, b: Span) -> Span {
    Span {
        file: a.file,
        lo: if a.lo <= b.lo { a.lo } else { b.lo },
        hi: if a.hi >= b.hi { a.hi } else { b.hi },
        row: if a.lo <= b.lo { a.row } else { b.row },
        col: if a.lo <= b.lo { a.col } else { b.col },
    }
}

/// Equality of two string slices by content.
pub fn str_eq(a: &str, b: &str) -> (r: bool)
    ensures
        r == (a@ == b@),
{
    let n = a.unicode_len();
    if n != b.unicode_len() {
        return false;
    }
    let mut i: usize = 0;
    while i < n
        invariant
            n == a@.len(),
            n == b@.len(),
            0 <= i <= n,
            forall|j: int| 0 <= j < i ==> a@[j] == b@[j],
        decreases n - i,
    {
        if a.get_char(i) != b.get_char(i) {
            return false;
        }
        i += 1;
    }
    assert(a@ =~= b@);
    true
}

impl<T> Spanned<T> {
    /// Creates a new spanned value.
    pub fn new(inner: T, span: Span) -> (r: Self)
        ensures
            r.inner == inner,
            r.span == span,
    {
        Spanned { inner, span }
    }

    /// Applies `f` to the inner value, keeping the span.
    pub fn map<U, F: Fn(&T) -> U>(&self, f: F) -> (r: Spanned<U>)
        requires
            call_requires(f, (&self.inner,)),
        ensures
            call_ensures(f, (&self.inner,), r.inner),
            r.span == self.span,
    {
        Spanned::new(f(&self.inner), self.span)
    }
}

impl Span {
    pub fn new(file: &'static str, lo: usize, hi: usize, row: usize, col: usize) -> (r: Self)
        ensures
            r == (Span { file, lo, hi, row, col }),
    {
        Span { file, lo, hi, row, col }
    }

    /// The empty span of no file.
    pub fn default_span() -> (r: Self)
        ensures
            r == default_span(),
    {
        Span { file: "", lo: 0, hi: 0, row: 0, col: 0 }
    }

    /// The smallest span covering both spans, which must belong to the same file.
    pub fn merge(self, other: Self) -> (r: Self)
        requires
            self.file@ == other.file@,
        ensures
            r == merge_v(self, other),
    {
        let first = if self.lo <= other.lo { self } else { other };
        Span {
            file: self.file,
            lo: if self.lo <= other.lo { self.lo } else { other.lo },
            hi: if self.hi >= other.hi { self.hi } else { other.hi },
            row: first.row,
            col: first.col,
        }
    }

    /// Attaches this span to a value.
    pub fn wrap<T>(self, inner: T) -> (r: Spanned<T>)
        ensures
            r.inner == inner,
            r.span == self,
    {
        Spanned::new(inner, self)
    }
}

/// The bytes `lo..hi` of `source`, copied.
fn copy_bytes(source: &Vec<u8>, lo: usize, hi: usize) -> (r: Vec<u8>)
    requires
        lo <= hi <= source@.len(),
    ensures
        r@ == source@.subrange(lo as int, hi as int),
{
    let mut out: Vec<u8> = Vec::new();
    let mut i = lo;
    while i < hi
        invariant
            lo <= i <= hi,
            hi <= source@.len(),
            out@ == source@.subrange(lo as int, i as int),
        decreases hi - i,
    {
        out.push(source[i]);
        proof {
            assert(out@ =~= source@.subrange(lo as int, i + 1));
        }
        i += 1;
    }
    out
}

impl<T> Spanned<T> {
    /// The source text that this value spans.
    pub fn source_string(&self, source: &Vec<u8>) -> (r: String)
        requires
            self.span.lo <= self.span.hi <= source@.len(),
            valid_utf8(source@.subrange(self.span.lo as int, self.span.hi as int)),
        ensures
            r@ == decode_utf8(source@.subrange(self.span.lo as int, self.span.hi as int)),
    {
        let bytes = copy_bytes(source, self.span.lo, self.span.hi);
        string_from_utf8(bytes).unwrap()
    }
}

/// Where the line that holds byte `lo` starts: just after the last newline before `lo`.
pub open spec fn line_start(src: Seq<u8>, lo: int) -> int
    decreases lo,
{
    if lo <= 0 {
        0
    } else if src[lo - 1] == 10 {
        lo
    } else {
        line_start(src, lo - 1)
    }
}

/// Where the line that holds byte `lo` ends: at the first newline from `lo` on, or at the end.
pub open spec fn line_end(src: Seq<u8>, lo: int) -> int
    decreases src.len() - lo,
{
    if lo >= src.len() {
        src.len() as int
    } else if src[lo] == 10 {
        lo
    } else {
        line_end(src, lo + 1)
    }
}

proof fn lemma_line_bounds(src: Seq<u8>, lo: int)
    requires
        0 <= lo <= src.len(),
    ensures
        0 <= line_start(src, lo) <= lo,
        lo <= line_end(src, lo) <= src.len(),
    decreases src.len() - lo,
{
    lemma_line_start_bound(src, lo);
    if lo < src.len() && src[lo] != 10 {
        lemma_line_bounds(src, lo + 1);
    }
}

proof fn lemma_line_start_bound(src: Seq<u8>, lo: int)
    requires
        0 <= lo <= src.len(),
    ensures
        0 <= line_start(src, lo) <= lo,
    decreases lo,
{
    if lo > 0 && src[lo - 1] != 10 {
        lemma_line_start_bound(src, lo - 1);
    }
}

/// The message text that shows span `sp` in `src`: the file name, the row counted from one and
/// the column, the line that holds the span, and a run of carets under the span (under the
/// rest of the line, followed by `...`, where the span goes on past it).
pub open spec fn content_v(sp: Span, src: Seq<u8>) -> Seq<char> {
    let ls = line_start(src, sp.lo as int);
    let le = line_end(src, sp.lo as int);
    let bytes = src.subrange(ls, le);
    let text = if valid_utf8(bytes) {
        decode_utf8(bytes)
    } else {
        "<invalid utf8>"@
    };
    let multiline = sp.hi > le;
    let effective_hi = if multiline {
        le
    } else {
        sp.hi as int
    };
    let carets = if effective_hi - sp.lo >= 1 {
        effective_hi - sp.lo
    } else {
        1
    };
    "\n\n"@ + sp.file@ + ":"@ + decimal_v((sp.row + 1) as nat) + ":"@ + decimal_v(sp.col as nat) + ":\n"@ + text
        + "\n"@ + repeat_v(" "@, (sp.lo - ls) as nat) + repeat_v("^"@, carets as nat) + (if multiline {
        "..."@
    } else {
        Seq::empty()
    }) + "\n"@
}

impl Span {
    /// The span shown in its line of `source` (see `content_v`).
    pub fn content(&self, source: &Vec<u8>) -> (r: String)
        requires
            self.lo <= source@.len(),
            self.row < usize::MAX,
        ensures
            r@ == content_v(*self, source@),
    {
        let n = source.len();
        let mut line_start_at = self.lo;
        proof {
            lemma_line_bounds(source@, self.lo as int);
        }
        while line_start_at > 0 && source[line_start_at - 1] != 10
            invariant
                line_start_at <= self.lo <= n,
                n == source@.len(),
                line_start(source@, self.lo as int) == line_start(source@, line_start_at as int),
            decreases line_start_at,
        {
            line_start_at -= 1;
        }
        let mut line_end_at = self.lo;
        while line_end_at < n && source[line_end_at] != 10
            invariant
                self.lo <= line_end_at <= n,
                n == source@.len(),
                line_end(source@, self.lo as int) == line_end(source@, line_end_at as int),
            decreases n - line_end_at,
        {
            line_end_at += 1;
        }
        let bytes = copy_bytes(source, line_start_at, line_end_at);
        let line_text = match string_from_utf8(bytes) {
            Some(t) => t,
            None => "<invalid utf8>".to_owned(),
        };
        let before_span_count = self.lo - line_start_at;
        let is_multiline = self.hi > line_end_at;
        let effective_hi = if is_multiline {
            line_end_at
        } else {
            self.hi
        };
        let caret_count = if effective_hi > self.lo && effective_hi - self.lo >= 1 {
            effective_hi - self.lo
        } else {
            1
        };
        let spaces = repeat_str(" ", before_span_count);
        let mut carets = repeat_str("^", caret_count);
        if is_multiline {
            carets = join_str(carets.as_str(), "...");
        }
        let mut out = join_str("\n\n", self.file);
        out = join_str(out.as_str(), ":");
        out = join_str(out.as_str(), decimal(self.row + 1).as_str());
        out = join_str(out.as_str(), ":");
        out = join_str(out.as_str(), decimal(self.col).as_str());
        out = join_str(out.as_str(), ":\n");
        out = join_str(out.as_str(), line_text.as_str());
        out = join_str(out.as_str(), "\n");
        out = join_str(out.as_str(), spaces.as_str());
        out = join_str(out.as_str(), carets.as_str());
        out = join_str(out.as_str(), "\n");
        proof {
            let ms: Seq<char> = if is_multiline {
                "..."@
            } else {
                Seq::empty()
            };
            assert(carets@ == repeat_v("^"@, caret_count as nat) + ms) by {
                if !is_multiline {
                    assert(repeat_v("^"@, caret_count as nat) + Seq::<char>::empty() =~= repeat_v("^"@, caret_count as nat));
                }
            }
            assert(out@ =~= content_v(*self, source@));
        }
        out
    }
}

/// Merging a span with itself gives the span back.
pub proof fn law_merge_idempotent(a: Span)
    ensures
        merge_v(a, a) == a,
{
}

/// The merge of two spans covers both.
pub proof fn law_merge_covers(a: Span, b: Span)
    ensures
        merge_v(a, b).lo <= a.lo,
        merge_v(a, b).lo <= b.lo,
        merge_v(a, b).hi >= a.hi,
        merge_v(a, b).hi >= b.hi,
        merge_v(a, b).lo == a.lo || merge_v(a, b).lo == b.lo,
        merge_v(a, b).hi == a.hi || merge_v(a, b).hi == b.hi,
{
}

/// Merging is associative, so a span built up token by token does not depend on grouping.
pub proof fn law_merge_assoc(a: Span, b: Span, c: Span)
    ensures
        merge_v(merge_v(a, b), c) == merge_v(a, merge_v(b, c)),
{
}

} // verus!
