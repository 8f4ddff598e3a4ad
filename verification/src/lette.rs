//! Slot labels: `A`, `B`, ..., `Z`, `AA`, `BB`, ..., `ZZ`, `AAA`, ...

use vstd::prelude::*;
use vstd::string::*;
use crate::parse::{is_identifier, is_name_char, views};

verus! {

/// The letters that labels are made of, in the order in which they are drawn.
pub open spec fn alphabet() -> Seq<char> {
    seq![
        'A', 'B', 'C', 'D', 'E', 'F', 'G', 'H', 'I', 'J', 'K', 'L', 'M',
        'N', 'O', 'P', 'Q', 'R', 'S', 'T', 'U', 'V', 'W', 'X', 'Y', 'Z',
    ]
}

/// The label at position `n`: letter `n mod 26`, written `n / 26 + 1` times.
pub open spec fn label(n: nat) -> Seq<char> {
    Seq::new(n / 26 + 1, |i: int| alphabet()[(n % 26) as int])
}

/// The first `count` labels, in order.
pub open spec fn labels(count: nat) -> Seq<Seq<char>> {
    Seq::new(count, |i: int| label(i as nat))
}

/// No letter of the alphabet occurs twice.
pub proof fn lemma_alphabet_distinct(a: int, b: int)
    requires
        0 <= a < 26,
        0 <= b < 26,
        a != b,
    ensures
        alphabet()[a] != alphabet()[b],
{
}

/// Labels at different positions differ: a label is never produced twice.
pub proof fn lemma_labels_distinct(i: nat, j: nat)
    requires
        i != j,
    ensures
        label(i) != label(j),
{
    if i / 26 == j / 26 {
        assert(i % 26 != j % 26);
        lemma_alphabet_distinct((i % 26) as int, (j % 26) as int);
        assert(label(i)[0] == alphabet()[(i % 26) as int]);
        assert(label(j)[0] == alphabet()[(j % 26) as int]);
    } else {
        assert(label(i).len() != label(j).len());
    }
}

/// Every label is an identifier.
pub proof fn lemma_label_is_identifier(n: nat)
    ensures
        is_identifier(label(n)),
{
    let letter = alphabet()[(n % 26) as int];
    assert('A' <= letter <= 'Z');
    assert forall|i: int| 0 <= i < label(n).len() implies is_name_char(#[trigger] label(n)[i]) by {
        assert(label(n)[i] == letter);
    }
    assert(label(n)[0] == letter);
}

/// A restartable source of labels. Every fresh one yields the same sequence.
#[derive(Clone, Copy)]
pub struct LettersIter {
    idx: usize,
}

impl LettersIter {
    /// How many labels have been drawn so far.
    pub closed spec fn position(&self) -> nat {
        self.idx as nat
    }

    pub fn new() -> (iter: Self)
        ensures
            iter.position() == 0,
    {
        Self { idx: 0 }
    }

    /// Draws the next label. The source is exhausted only when its counter
    /// can no longer advance.
    pub fn next(&mut self) -> (item: Option<String>)
        ensures
            old(self).position() < usize::MAX ==> item.is_some() && item.unwrap()@ == label(
                old(self).position(),
            ) && final(self).position() == old(self).position() + 1,
            old(self).position() >= usize::MAX ==> item.is_none() && final(self).position() == old(
                self,
            ).position(),
    {
        if self.idx == usize::MAX {
            return None;
        }
        let letters = "ABCDEFGHIJKLMNOPQRSTUVWXYZ";
        proof {
            reveal_strlit("ABCDEFGHIJKLMNOPQRSTUVWXYZ");
            assert(letters@ =~= alphabet());
        }
        let k: usize = self.idx % 26;
        let c: usize = self.idx / 26;
        let l = letters.substring_char(k, k + 1);
        let mut s = String::new();
        let mut i: usize = 0;
        while i <= c
            invariant
                i <= c + 1,
                c < usize::MAX,
                0 <= k < 26,
                l@ == letters@.subrange(k as int, k + 1),
                letters@ == alphabet(),
                s@ == Seq::new(i as nat, |j: int| alphabet()[k as int]),
            decreases c + 1 - i,
        {
            s.append(l);
            i += 1;
            assert(s@ =~= Seq::new(i as nat, |j: int| alphabet()[k as int]));
        }
        assert(s@ =~= label(self.idx as nat));
        self.idx += 1;
        Some(s)
    }

    /// Skips `n` labels and draws the one after them.
    pub fn nth(&mut self, n: usize) -> (item: Option<String>)
        ensures
            old(self).position() + n < usize::MAX ==> item.is_some() && item.unwrap()@ == label(
                old(self).position() + n as nat,
            ) && final(self).position() == old(self).position() + n + 1,
            old(self).position() + n >= usize::MAX ==> item.is_none() && final(self).position()
                == usize::MAX,
    {
        if n >= usize::MAX - self.idx {
            self.idx = usize::MAX;
            None
        } else {
            self.idx += n;
            self.next()
        }
    }
}

/// The first `count` labels of a fresh source.
pub fn take_labels(count: usize) -> (out: Vec<String>)
    ensures
        views(out@) == labels(count as nat),
        out@.len() == count,
        forall|i: int| 0 <= i < count ==> (#[trigger] out@[i])@ == label(i as nat),
{
    let mut iter = LettersIter::new();
    let mut out: Vec<String> = Vec::new();
    while out.len() < count
        invariant
            out@.len() <= count,
            iter.position() == out@.len(),
            forall|i: int| 0 <= i < out@.len() ==> (#[trigger] out@[i])@ == label(i as nat),
        decreases count - out@.len(),
    {
        match iter.next() {
            Some(s) => {
                out.push(s);
            },
            None => {
                proof {
                    assert(false);
                }
            },
        }
    }
    assert(views(out@) =~= labels(count as nat));
    out
}

} // verus!
