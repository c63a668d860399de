use itertools::Itertools;
use vstd::prelude::*;

verus! {

/// The leading characters of `s` up to, not including, the first backslash.
pub open spec fn plain_prefix(s: Seq<char>) -> Seq<char>
    decreases s.len(),
{
    if s.len() == 0 || s[0] == '\\' {
        Seq::empty()
    } else {
        seq![s[0]] + plain_prefix(s.drop_first())
    }
}

/// The plain prefix is a prefix of the text, and it is all of it when no backslash follows.
pub proof fn lemma_plain_prefix(s: Seq<char>)
    ensures
        plain_prefix(s).len() <= s.len(),
        plain_prefix(s) == s.take(plain_prefix(s).len() as int),
        forall|i: int| 0 <= i < plain_prefix(s).len() ==> s[i] != '\\',
        plain_prefix(s).len() < s.len() ==> s[plain_prefix(s).len() as int] == '\\',
    decreases s.len(),
{
    if s.len() == 0 || s[0] == '\\' {
        assert(s.take(0) =~= Seq::<char>::empty());
    } else {
        let t = s.drop_first();
        lemma_plain_prefix(t);
        let k = plain_prefix(t).len();
        assert(seq![s[0]] + t.take(k as int) =~= s.take(k + 1 as int));
        assert forall|i: int| 0 <= i < k + 1 implies s[i] != '\\' by {
            if i > 0 {
                assert(s[i] == t[i - 1]);
            }
        }
    }
}

/// Whether `c` is copied through as it stands, that is, is no backslash.
pub fn is_plain(c: char) -> (r: bool)
    ensures
        r == (c != '\\'),
{
    c != '\\'
}

/// Relies on `itertools::Itertools::take_while_ref` over a slice iterator: it yields the
/// leading items that the predicate accepts, and stops at the first one it rejects.
#[verifier::external_body]
fn plain_run(chars: &Vec<char>, start: usize) -> (r: Vec<char>)
    requires
        start <= chars.len(),
    ensures
        r@ == plain_prefix(chars@.skip(start as int)),
{
    let mut rest = chars[start..].iter();
    rest.take_while_ref(|c| is_plain(**c)).cloned().collect()
}

/// A forward-only cursor over a sequence of characters, with one character of lookahead.
pub struct Cursor {
    chars: Vec<char>,
    pos: usize,
}

impl View for Cursor {
    type V = Seq<char>;

    /// The characters not yet consumed.
    closed spec fn view(&self) -> Seq<char> {
        self.chars@.skip(self.pos as int)
    }
}

impl Clone for Cursor {
    /// A cursor over the same characters, at the same place.
    fn clone(&self) -> (r: Self)
        ensures
            r@ == self@,
    {
        proof {
            use_type_invariant(self);
        }
        let chars = self.chars.clone();
        assert(chars@ =~= self.chars@);
        Cursor { chars, pos: self.pos }
    }
}

impl Cursor {
    #[verifier::type_invariant]
    spec fn inv(self) -> bool {
        self.pos <= self.chars.len()
    }

    /// A cursor positioned before the first of `chars`.
    pub fn new(chars: Vec<char>) -> (r: Cursor)
        ensures
            r@ == chars@,
    {
        let r = Cursor { chars, pos: 0 };
        assert(r@ =~= chars@);
        r
    }

    /// The number of characters left.
    pub fn len(&self) -> (r: usize)
        ensures
            r == self@.len(),
    {
        proof {
            use_type_invariant(self);
        }
        self.chars.len() - self.pos
    }

    /// Whether no character is left.
    pub fn is_empty(&self) -> (r: bool)
        ensures
            r == (self@.len() == 0),
    {
        self.len() == 0
    }

    /// The next character, without consuming it.
    pub fn peek(&self) -> (r: Option<char>)
        ensures
            r == (if self@.len() > 0 { Some(self@[0]) } else { None::<char> }),
    {
        proof {
            use_type_invariant(self);
        }
        if self.pos < self.chars.len() {
            Some(self.chars[self.pos])
        } else {
            None
        }
    }

    /// Consumes the characters before the next backslash, or all of them if none is left,
    /// and returns them.
    pub fn take_plain(&mut self) -> (r: Vec<char>)
        ensures
            r@ == plain_prefix(old(self)@),
            final(self)@ == old(self)@.skip(r@.len() as int),
    {
        proof {
            use_type_invariant(&*self);
            lemma_plain_prefix(self@);
        }
        let r = plain_run(&self.chars, self.pos);
        self.pos = self.pos + r.len();
        assert(self@ =~= old(self)@.skip(r@.len() as int));
        r
    }

    /// Consumes and returns the next character, if any.
    pub fn next(&mut self) -> (r: Option<char>)
        ensures
            r == (if old(self)@.len() > 0 { Some(old(self)@[0]) } else { None::<char> }),
            final(self)@ == (if old(self)@.len() > 0 { old(self)@.drop_first() } else { old(self)@ }),
    {
        proof {
            use_type_invariant(&*self);
        }
        if self.pos < self.chars.len() {
            let c = self.chars[self.pos];
            self.pos = self.pos + 1;
            assert(self@ =~= old(self)@.drop_first());
            Some(c)
        } else {
            None
        }
    }
}

} // verus!
