//! A character cursor over a text that is always one character ahead: the
//! lookahead character and its byte offset are known before it is consumed.
use vstd::prelude::*;

use crate::chars::{byte_offset, char_width, lemma_byte_offset_bound, lemma_byte_offset_step, lemma_encode_utf8_len, utf8_len};

verus! {

broadcast use vstd::string::group_string_axioms;

/// Cursor over the characters of a text, advanced by one at construction.
///
/// Positions handed out are byte offsets into the text; the cursor itself
/// counts characters.
#[derive(Debug)]
pub struct AdvancedChars {
    chars: Vec<char>,
    offsets: Vec<usize>,
    length: usize,
    next: usize,
    current: Option<usize>,
}

impl AdvancedChars {
    /// The characters of the text.
    pub closed spec fn text(&self) -> Seq<char> {
        self.chars@
    }

    /// Index of the lookahead character; the length of the text once all is consumed.
    pub closed spec fn pos(&self) -> nat {
        self.next as nat
    }

    /// Index of the character consumed last, if the last step consumed one.
    pub closed spec fn cur(&self) -> Option<nat> {
        match self.current {
            Some(i) => Some(i as nat),
            None => None,
        }
    }

    /// The characters not consumed yet.
    pub open spec fn rest(&self) -> Seq<char> {
        self.text().skip(self.pos() as int)
    }

    pub closed spec fn wf(&self) -> bool {
        &&& self.offsets.len() == self.chars.len()
        &&& forall|i: int|
            0 <= i < self.chars.len() ==> #[trigger] self.offsets[i] == byte_offset(
                self.chars@,
                i,
            )
        &&& self.length == utf8_len(self.chars@)
        &&& self.next <= self.chars.len()
        &&& self.current matches Some(i) ==> i < self.next
    }

    /// Bounds that hold of every well-formed cursor.
    pub proof fn lemma_wf(&self)
        requires
            self.wf(),
        ensures
            self.pos() <= self.text().len(),
            self.cur() matches Some(i) ==> i < self.pos(),
            utf8_len(self.text()) <= usize::MAX,
    {
    }

    /// Creates a new advanced char iterator from a string.
    pub fn new(input: &str) -> (r: AdvancedChars)
        ensures
            r.wf(),
            r.text() == input@,
            r.pos() == 0,
            r.cur() is None,
    {
        let total = input.as_bytes().len();
        proof {
            lemma_encode_utf8_len(input@);
        }
        let mut chars: Vec<char> = Vec::new();
        let mut offsets: Vec<usize> = Vec::new();
        let mut offset: usize = 0;
        for c in it: input.chars()
            invariant
                it.seq() == input@,
                total == utf8_len(input@),
                chars@ == input@.take(it.index()),
                offsets.len() == chars.len(),
                forall|i: int| 0 <= i < chars.len() ==> #[trigger] offsets[i] == byte_offset(input@, i),
                offset == byte_offset(input@, it.index()),
        {
            proof {
                lemma_byte_offset_step(input@, it.index());
                lemma_byte_offset_bound(input@, it.index() + 1);
                assert(input@.take(it.index() + 1) =~= input@.take(it.index()).push(c));
            }
            chars.push(c);
            offsets.push(offset);
            offset = offset + char_width(c);
        }
        proof {
            assert(input@.take(input@.len() as int) =~= input@);
            assert(chars@ =~= input@);
        }
        AdvancedChars { chars, offsets, length: total, next: 0, current: None }
    }

    /// Byte offset of the lookahead character, if there is one.
    pub fn peek_pos(&self) -> (r: Option<usize>)
        requires
            self.wf(),
        ensures
            r == (if self.pos() < self.text().len() {
                Some(byte_offset(self.text(), self.pos() as int) as usize)
            } else {
                None
            }),
    {
        if self.next < self.chars.len() {
            Some(self.offsets[self.next])
        } else {
            None
        }
    }

    /// Byte offset of the lookahead character, or the byte length of the text
    /// once all is consumed.
    pub fn peek_pos_or_end(&self) -> (r: usize)
        requires
            self.wf(),
        ensures
            r == byte_offset(self.text(), self.pos() as int),
    {
        proof {
            lemma_byte_offset_bound(self.chars@, self.next as int);
        }
        match self.peek_pos() {
            Some(p) => p,
            None => self.length,
        }
    }

    /// Byte offset of the character consumed last, if the last step consumed one.
    pub fn current_pos(&self) -> (r: Option<usize>)
        requires
            self.wf(),
        ensures
            r == (match self.cur() {
                Some(i) => Some(byte_offset(self.text(), i as int) as usize),
                None => None,
            }),
    {
        match self.current {
            Some(i) => Some(self.offsets[i]),
            None => None,
        }
    }

    /// Byte offset of the character consumed last, or the byte length of the
    /// text when the last step consumed none.
    pub fn current_pos_or_end(&self) -> (r: usize)
        requires
            self.wf(),
        ensures
            r == (match self.cur() {
                Some(i) => byte_offset(self.text(), i as int),
                None => utf8_len(self.text()),
            }),
    {
        proof {
            if let Some(i) = self.current {
                lemma_byte_offset_bound(self.chars@, i as int);
            }
        }
        match self.current_pos() {
            Some(p) => p,
            None => self.length,
        }
    }

    /// Index of the lookahead character, counted in characters; the number
    /// of characters once all is consumed.
    pub fn peek_index(&self) -> (r: usize)
        ensures
            r == self.pos(),
    {
        self.next
    }

    /// Byte length of the text.
    pub fn len(&self) -> (r: usize)
        requires
            self.wf(),
        ensures
            r == utf8_len(self.text()),
    {
        self.length
    }

    /// The lookahead character, without consuming it.
    pub fn peek(&self) -> (r: Option<&char>)
        requires
            self.wf(),
        ensures
            r == (if self.pos() < self.text().len() {
                Some(&self.text()[self.pos() as int])
            } else {
                None
            }),
    {
        if self.next < self.chars.len() {
            Some(&self.chars[self.next])
        } else {
            None
        }
    }

    /// Consumes the lookahead character and returns it. Once the text is
    /// consumed, keeps returning `None`.
    pub fn next(&mut self) -> (r: Option<char>)
        requires
            old(self).wf(),
        ensures
            final(self).wf(),
            final(self).text() == old(self).text(),
            old(self).pos() < old(self).text().len() ==> {
                &&& r == Some(old(self).text()[old(self).pos() as int])
                &&& final(self).pos() == old(self).pos() + 1
                &&& final(self).cur() == Some(old(self).pos())
            },
            old(self).pos() >= old(self).text().len() ==> {
                &&& r is None
                &&& final(self).pos() == old(self).pos()
                &&& final(self).cur() is None
            },
    {
        if self.next < self.chars.len() {
            let c = self.chars[self.next];
            self.current = Some(self.next);
            self.next = self.next + 1;
            Some(c)
        } else {
            self.current = None;
            None
        }
    }

    /// Consumes the lookahead character if it is `valid`.
    pub fn accept(&mut self, valid: char) -> (r: bool)
        requires
            old(self).wf(),
        ensures
            final(self).wf(),
            final(self).text() == old(self).text(),
            r == (old(self).pos() < old(self).text().len() && old(self).text()[old(self).pos() as int]
                == valid),
            r ==> final(self).pos() == old(self).pos() + 1 && final(self).cur() == Some(
                old(self).pos(),
            ),
            !r ==> *final(self) == *old(self),
    {
        if self.next < self.chars.len() && self.chars[self.next] == valid {
            self.next();
            true
        } else {
            false
        }
    }

    /// Consumes characters while `predicate` holds of the lookahead. The
    /// first character it rejects is not consumed.
    pub fn accept_while(&mut self, predicate: impl Fn(&char) -> bool)
        requires
            old(self).wf(),
            forall|c: &char| #[trigger] predicate.requires((c,)),
        ensures
            final(self).wf(),
            final(self).text() == old(self).text(),
            old(self).pos() <= final(self).pos() <= final(self).text().len(),
            forall|i: int|
                old(self).pos() <= i < final(self).pos() ==> predicate.ensures(
                    (&#[trigger] final(self).text()[i],),
                    true,
                ),
            final(self).pos() < final(self).text().len() ==> predicate.ensures(
                (&final(self).text()[final(self).pos() as int],),
                false,
            ),
            final(self).pos() == old(self).pos() ==> final(self).cur() == old(self).cur(),
            final(self).pos() > old(self).pos() ==> final(self).cur() == Some(
                (final(self).pos() - 1) as nat,
            ),
    {
        loop
            invariant
                self.wf(),
                self.text() == old(self).text(),
                forall|c: &char| #[trigger] predicate.requires((c,)),
                old(self).pos() <= self.pos() <= self.text().len(),
                forall|i: int|
                    old(self).pos() <= i < self.pos() ==> predicate.ensures(
                        (&#[trigger] self.text()[i],),
                        true,
                    ),
                self.pos() == old(self).pos() ==> self.cur() == old(self).cur(),
                self.pos() > old(self).pos() ==> self.cur() == Some((self.pos() - 1) as nat),
            ensures
                self.pos() < self.text().len() ==> predicate.ensures(
                    (&self.text()[self.pos() as int],),
                    false,
                ),
            decreases self.text().len() - self.pos(),
        {
            if self.next >= self.chars.len() {
                break;
            }
            let c = self.chars[self.next];
            if !predicate(&c) {
                break;
            }
            self.next();
        }
    }

    /// Consumes characters up to and including the first one that
    /// `predicate` holds of, and returns it; consumes all and returns `None`
    /// when there is none.
    pub fn find(&mut self, predicate: impl Fn(&char) -> bool) -> (r: Option<char>)
        requires
            old(self).wf(),
            forall|c: &char| #[trigger] predicate.requires((c,)),
        ensures
            final(self).wf(),
            final(self).text() == old(self).text(),
            old(self).pos() <= final(self).pos() <= final(self).text().len(),
            forall|i: int|
                old(self).pos() <= i < final(self).pos() - 1 ==> predicate.ensures(
                    (&#[trigger] final(self).text()[i],),
                    false,
                ),
            r matches Some(c) ==> {
                &&& final(self).pos() > old(self).pos()
                &&& c == final(self).text()[final(self).pos() - 1]
                &&& predicate.ensures((&c,), true)
                &&& final(self).cur() == Some((final(self).pos() - 1) as nat)
            },
            r is None ==> {
                &&& final(self).pos() == final(self).text().len()
                &&& final(self).pos() > old(self).pos() ==> predicate.ensures(
                    (&final(self).text()[final(self).pos() - 1],),
                    false,
                )
                &&& final(self).cur() is None
            },
    {
        loop
            invariant
                self.wf(),
                self.text() == old(self).text(),
                forall|c: &char| #[trigger] predicate.requires((c,)),
                old(self).pos() <= self.pos() <= self.text().len(),
                forall|i: int|
                    old(self).pos() <= i < self.pos() ==> predicate.ensures(
                        (&#[trigger] self.text()[i],),
                        false,
                    ),
            decreases self.text().len() - self.pos(),
        {
            match self.next() {
                Some(c) => {
                    if predicate(&c) {
                        return Some(c);
                    }
                },
                None => {
                    return None;
                },
            }
        }
    }
}

} // verus!
