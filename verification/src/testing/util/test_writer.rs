//! A text buffer that the runner writes its report into.
use vstd::prelude::*;
use crate::text::{chars_to_string, str_to_chars};

verus! {

/// What the runner writes: the text of its report, line by line.
pub struct TestWriter {
    pub buffer: String,
}

impl View for TestWriter {
    type V = Seq<char>;

    open spec fn view(&self) -> Seq<char> {
        self.buffer@
    }
}

/// The text that a sequence of bytes encodes in UTF-8, or nothing where the
/// bytes are not valid UTF-8.
pub uninterp spec fn utf8_text(bytes: Seq<u8>) -> Option<Seq<char>>;

/// Decodes bytes with `std::str::from_utf8`: the text they encode, or `None`
/// where they are not valid UTF-8. Its result is `utf8_text` of the bytes.
#[verifier::external_body]
fn decode_utf8(buf: &[u8]) -> (r: Option<String>)
    ensures
        match r {
            Some(s) => utf8_text(buf@) == Some(s@),
            None => utf8_text(buf@) is None,
        },
{
    match std::str::from_utf8(buf) {
        Ok(s) => Some(s.to_string()),
        Err(_) => None,
    }
}

/// The lines of a text read so far: the finished lines (each without its
/// line feed, and without the carriage return before it), and the line being read.
pub open spec fn lines_acc(s: Seq<char>) -> (Seq<Seq<char>>, Seq<char>)
    decreases s.len(),
{
    if s.len() == 0 {
        (Seq::empty(), Seq::empty())
    } else {
        let (done, cur) = lines_acc(s.drop_last());
        if s.last() == '\n' {
            (done.push(strip_cr(cur)), Seq::empty())
        } else {
            (done, cur.push(s.last()))
        }
    }
}

/// A line without the carriage return that ends it, if any.
pub open spec fn strip_cr(l: Seq<char>) -> Seq<char> {
    if l.len() > 0 && l.last() == '\r' { l.drop_last() } else { l }
}

/// The lines of a text: a final line feed ends the last line and starts no new one.
pub open spec fn text_lines(s: Seq<char>) -> Seq<Seq<char>> {
    let (done, cur) = lines_acc(s);
    if cur.len() == 0 { done } else { done.push(cur) }
}

impl TestWriter {
    pub fn new() -> (r: Self)
        ensures
            r@ == Seq::<char>::empty(),
    {
        Self { buffer: String::new() }
    }

    /// Appends `line` and a line feed.
    pub fn write_line(&mut self, line: &str)
        ensures
            final(self)@ == old(self)@ + line@ + seq!['\n'],
    {
        self.buffer.append(line);
        let nl = "\n";
        proof { reveal_strlit("\n"); }
        self.buffer.append(nl);
    }

    /// Appends the text that `buf` encodes in UTF-8 and gives back the number
    /// of bytes taken, all of them; bytes that are not valid UTF-8 are refused
    /// and nothing is appended.
    pub fn write(&mut self, buf: &[u8]) -> (r: Result<usize, String>)
        ensures
            match utf8_text(buf@) {
                Some(t) => r == Ok::<usize, String>(buf@.len() as usize) && final(self)@ == old(self)@ + t,
                None => r matches Err(msg) && msg@ == "Invalid UTF-8 sequence"@ && final(self)@ == old(self)@,
            },
    {
        match decode_utf8(buf) {
            Some(s) => {
                self.buffer.append(s.as_str());
                Ok(buf.len())
            },
            None => {
                let msg = String::from_str("Invalid UTF-8 sequence");
                proof { reveal_strlit("Invalid UTF-8 sequence"); }
                Err(msg)
            },
        }
    }

    /// Nothing is held back, so flushing always succeeds and changes nothing.
    pub fn flush(&mut self) -> (r: Result<(), String>)
        ensures
            r is Ok,
            final(self)@ == old(self)@,
    {
        Ok(())
    }

    /// The lines written so far; see [`text_lines`].
    pub fn str_lines(&self) -> (r: Vec<String>)
        ensures
            r@.len() == text_lines(self@).len(),
            forall|i: int| 0 <= i < r@.len() ==> #[trigger] r@[i]@ == text_lines(self@)[i],
    {
        let chars = str_to_chars(self.buffer.as_str());
        let ghost s = chars@;
        let mut done: Vec<String> = Vec::new();
        let mut cur: Vec<char> = Vec::new();
        let mut i: usize = 0;
        while i < chars.len()
            invariant
                i <= chars.len(),
                s == chars@,
                done@.len() == lines_acc(s.take(i as int)).0.len(),
                forall|j: int| 0 <= j < done@.len() ==> #[trigger] done@[j]@ == lines_acc(s.take(i as int)).0[j],
                cur@ == lines_acc(s.take(i as int)).1,
            decreases chars.len() - i,
        {
            assert(s.take(i + 1).drop_last() =~= s.take(i as int));
            let c = chars[i];
            if c == '\n' {
                if cur.len() > 0 && cur[cur.len() - 1] == '\r' {
                    cur.pop();
                }
                done.push(chars_to_string(&cur));
                cur = Vec::new();
            } else {
                cur.push(c);
            }
            i = i + 1;
        }
        assert(s.take(i as int) =~= s);
        if cur.len() > 0 {
            done.push(chars_to_string(&cur));
        }
        done
    }
}

} // verus!
