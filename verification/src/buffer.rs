//! The text buffer: an ordered sequence of lines and an optional file path.
//!
//! Lines are addressed externally as 1-based; storage is 0-based. Stored
//! lines carry no trailing terminator. Reading and writing files is the
//! caller's business: the buffer only splits text into lines and renders
//! line ranges back to text.
use vstd::prelude::*;

verus! {

/// An in-memory text buffer. Lines carry no trailing terminator.
#[derive(Debug, PartialEq)]
pub struct Buffer {
    pub filename: Option<String>,
    pub content: Vec<String>,
    pub top_visible: usize,
}

/// The text of lines `start..=end` (1-based) of `lines`, each line followed
/// by a newline terminator.
pub open spec fn lines_text(lines: Seq<String>, start: int, end: int) -> Seq<char>
    decreases end - start + 1,
{
    if start > end {
        Seq::empty()
    } else {
        lines[start - 1]@ + seq!['\n'] + lines_text(lines, start + 1, end)
    }
}

/// Extending a rendered range by one line appends that line and a newline.
pub proof fn lemma_lines_text_snoc(lines: Seq<String>, start: int, end: int)
    requires
        start <= end,
    ensures
        lines_text(lines, start, end) == lines_text(lines, start, end - 1) + lines[end - 1]@
            + seq!['\n'],
    decreases end - start,
{
    if start == end {
        assert(lines_text(lines, start + 1, end) =~= Seq::<char>::empty());
        assert(lines_text(lines, start, end - 1) =~= Seq::<char>::empty());
        assert(lines_text(lines, start, end) =~= lines_text(lines, start, end - 1) + lines[end
            - 1]@ + seq!['\n']);
    } else {
        lemma_lines_text_snoc(lines, start + 1, end);
        assert(lines_text(lines, start, end - 1) == lines[start - 1]@ + seq!['\n']
            + lines_text(lines, start + 1, end - 1));
        assert(lines_text(lines, start, end) =~= lines_text(lines, start, end - 1) + lines[end
            - 1]@ + seq!['\n']);
    }
}

/// Index of the first newline in `s`, or `s.len()` if there is none.
pub open spec fn line_break(s: Seq<char>) -> nat
    decreases s.len(),
{
    if s.len() == 0 || s[0] == '\n' {
        0
    } else {
        1 + line_break(s.skip(1))
    }
}

proof fn lemma_line_break_is(s: Seq<char>, i: int)
    requires
        0 <= i <= s.len(),
        forall|j: int| 0 <= j < i ==> s[j] != '\n',
        i == s.len() || s[i] == '\n',
    ensures
        line_break(s) == i,
    decreases s.len(),
{
    if i == 0 {
    } else {
        assert forall|j: int| 0 <= j < i - 1 implies s.skip(1)[j] != '\n' by {
            assert(s.skip(1)[j] == s[j + 1]);
        }
        lemma_line_break_is(s.skip(1), i - 1);
    }
}

/// Text split on newline boundaries, terminators dropped; a trailing
/// newline does not produce an empty final line.
pub open spec fn spec_split_lines(s: Seq<char>) -> Seq<Seq<char>>
    decreases s.len(),
{
    if s.len() == 0 {
        Seq::empty()
    } else {
        let k = line_break(s) as int;
        if k < s.len() {
            seq![s.take(k)] + spec_split_lines(s.skip(k + 1))
        } else {
            seq![s]
        }
    }
}

/// Split `text` into its lines: each maximal newline-free run, with the
/// terminators dropped.
pub fn split_lines(text: &str) -> (r: Vec<String>)
    ensures
        r@.len() == spec_split_lines(text@).len(),
        forall|i: int| 0 <= i < r@.len() ==> r@[i]@ == spec_split_lines(text@)[i],
    decreases text@.len(),
{
    let n = text.unicode_len();
    if n == 0 {
        return Vec::new();
    }
    let mut k: usize = 0;
    while k < n && text.get_char(k) != '\n'
        invariant
            k <= n,
            n == text@.len(),
            forall|j: int| 0 <= j < k ==> text@[j] != '\n',
        decreases n - k,
    {
        k = k + 1;
    }
    proof {
        lemma_line_break_is(text@, k as int);
    }
    let head = text.substring_char(0, k).to_owned();
    if k < n {
        let tail_str = text.substring_char(k + 1, n);
        proof {
            assert(tail_str@ =~= text@.skip(k + 1));
        }
        let mut tail = split_lines(tail_str);
        let mut r: Vec<String> = Vec::new();
        r.push(head);
        r.append(&mut tail);
        proof {
            let sp = spec_split_lines(text@);
            assert(sp == seq![text@.take(k as int)] + spec_split_lines(text@.skip(k + 1)));
            assert forall|i: int| 0 <= i < r@.len() implies r@[i]@ == sp[i] by {
                if i > 0 {
                    assert(sp[i] == spec_split_lines(text@.skip(k + 1))[i - 1]);
                }
            }
        }
        r
    } else {
        let mut r: Vec<String> = Vec::new();
        r.push(head);
        proof {
            assert(text@.take(k as int) =~= text@);
        }
        r
    }
}

impl Buffer {
    /// An empty, path-less buffer.
    pub fn new() -> (r: Buffer)
        ensures
            r.filename is None,
            r.content@.len() == 0,
            r.top_visible == 0,
    {
        Buffer { filename: None, content: Vec::new(), top_visible: 0 }
    }

    /// Remove lines `start..=end` (1-based, inclusive); later lines shift
    /// down.
    pub fn delete(&mut self, start: usize, end: usize)
        requires
            1 <= start <= end <= old(self).content@.len(),
        ensures
            final(self).content@ == old(self).content@.subrange(0, start - 1) + old(
                self,
            ).content@.subrange(end as int, old(self).content@.len() as int),
            final(self).filename == old(self).filename,
            final(self).top_visible == old(self).top_visible,
    {
        let ghost orig = old(self).content@;
        let count = end - start + 1;
        let mut removed: usize = 0;
        while removed < count
            invariant
                count == end - start + 1,
                1 <= start <= end <= orig.len(),
                removed <= count,
                self.content@ == orig.take(start - 1) + orig.skip(start - 1 + removed),
                self.filename == old(self).filename,
                self.top_visible == old(self).top_visible,
            decreases count - removed,
        {
            let ghost before = self.content@;
            self.content.remove(start - 1);
            removed = removed + 1;
            proof {
                assert(before.remove(start - 1) =~= orig.take(start - 1) + orig.skip(
                    start - 1 + removed,
                ));
            }
        }
        proof {
            assert(orig.take(start - 1) + orig.skip(start - 1 + count) =~= orig.subrange(
                0,
                start - 1,
            ) + orig.subrange(end as int, orig.len() as int));
        }
    }

    /// Split `text` on line boundaries and insert the resulting lines
    /// immediately after line `after_line` (0 inserts at the front).
    pub fn insert(&mut self, after_line: usize, text: &str)
        requires
            after_line <= old(self).content@.len(),
        ensures
            ({
                let new = spec_split_lines(text@);
                let orig = old(self).content@;
                &&& final(self).content@.len() == orig.len() + new.len()
                &&& forall|i: int| 0 <= i < after_line ==> final(self).content@[i] == orig[i]
                &&& forall|i: int|
                    0 <= i < new.len() ==> final(self).content@[after_line + i]@ == new[i]
                &&& forall|i: int|
                    after_line <= i < orig.len() ==> final(self).content@[i + new.len()]
                        == orig[i]
            }),
            final(self).filename == old(self).filename,
            final(self).top_visible == old(self).top_visible,
    {
        let ghost orig = old(self).content@;
        let ghost new = spec_split_lines(text@);
        let lines = split_lines(text);
        let m = lines.len();
        let mut j: usize = 0;
        while j < m
            invariant
                j <= m,
                m == lines@.len(),
                m == new.len(),
                forall|i: int| 0 <= i < m ==> lines@[i]@ == new[i],
                after_line <= orig.len(),
                self.content@.len() == orig.len() + j,
                forall|i: int| 0 <= i < after_line ==> self.content@[i] == orig[i],
                forall|i: int| 0 <= i < j ==> self.content@[after_line + i]@ == new[i],
                forall|i: int|
                    after_line <= i < orig.len() ==> self.content@[i + j] == orig[i],
                self.filename == old(self).filename,
                self.top_visible == old(self).top_visible,
            decreases m - j,
        {
            let line = lines[j].clone();
            let ghost before = self.content@;
            let cur_len = self.content.len();
            assert(after_line + j <= cur_len);
            self.content.insert(after_line + j, line);
            j = j + 1;
            proof {
                assert forall|i: int|
                    0 <= i < j implies self.content@[after_line + i]@ == new[i] by {
                    if i < j - 1 {
                        assert(self.content@[after_line + i] == before[after_line + i]);
                    }
                }
            }
        }
    }
}

} // verus!
