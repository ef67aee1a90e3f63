//! What the library keeps of reading scene scripts: the error a failed parse
//! reports, and the line a byte offset of the source falls on.

use vstd::prelude::*;
use vstd::string::StringSliceAdditionalSpecFns;

verus! {

/// A failed parse: one message per diagnostic.
#[derive(Debug, Clone)]
pub struct ParseError {
    pub messages: Vec<String>,
}

/// The messages, each followed by a line break.
pub open spec fn lines_spec(msgs: Seq<Seq<char>>) -> Seq<char>
    decreases msgs.len(),
{
    if msgs.len() == 0 {
        Seq::empty()
    } else {
        lines_spec(msgs.drop_last()) + msgs[msgs.len() - 1] + seq!['\n']
    }
}

impl ParseError {
    /// The error as text: each message on a line of its own.
    pub fn to_string(&self) -> (r: String)
        ensures
            r@ == lines_spec(Seq::new(self.messages@.len(), |i: int| self.messages@[i]@)),
    {
        let ghost ms = Seq::new(self.messages@.len(), |i: int| self.messages@[i]@);
        let mut out = String::new();
        let mut i: usize = 0;
        while i < self.messages.len()
            invariant
                0 <= i <= self.messages@.len(),
                ms == Seq::new(self.messages@.len(), |i: int| self.messages@[i]@),
                out@ == lines_spec(ms.take(i as int)),
            decreases self.messages@.len() - i,
        {
            out.append(self.messages[i].as_str());
            out.append("\n");
            proof {
                reveal_strlit("\n");
                assert(ms.take(i + 1).drop_last() =~= ms.take(i as int));
            }
            i += 1;
        }
        assert(ms.take(i as int) =~= ms);
        out
    }
}

/// Line breaks among the first `n` bytes.
pub open spec fn newlines(bytes: Seq<u8>, n: int) -> nat
    decreases n,
{
    if n <= 0 || bytes.len() == 0 {
        0
    } else if n > bytes.len() {
        newlines(bytes, bytes.len() as int)
    } else {
        newlines(bytes, n - 1) + if bytes[n - 1] == 10u8 {
            1nat
        } else {
            0nat
        }
    }
}

proof fn lemma_newlines_bound(bytes: Seq<u8>, n: int)
    requires
        0 <= n <= bytes.len(),
    ensures
        newlines(bytes, n) <= n,
    decreases n,
{
    if n > 0 {
        lemma_newlines_bound(bytes, n - 1);
    }
}

/// The line, counted from 1, on which byte `byte` of `src` falls; an offset
/// past the end counts as the end.
pub fn byte_to_line(src: &str, byte: usize) -> (r: usize)
    requires
        src.spec_bytes().len() < usize::MAX,
    ensures
        r == newlines(src.spec_bytes(), byte as int) + 1,
{
    let bytes = src.as_bytes();
    let clamped = if byte < bytes.len() {
        byte
    } else {
        bytes.len()
    };
    let ghost bs = src.spec_bytes();
    let mut count: usize = 0;
    let mut i: usize = 0;
    while i < clamped
        invariant
            bytes@ == bs,
            clamped <= bs.len(),
            bs.len() < usize::MAX,
            0 <= i <= clamped,
            count == newlines(bs, i as int),
        decreases clamped - i,
    {
        proof {
            lemma_newlines_bound(bs, i as int);
        }
        if bytes[i] == 10u8 {
            count += 1;
        }
        i += 1;
    }
    proof {
        lemma_newlines_bound(bs, clamped as int);
        if byte as int > bs.len() {
            assert(newlines(bs, byte as int) == newlines(bs, bs.len() as int));
        }
    }
    count + 1
}

} // verus!
