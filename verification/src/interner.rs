use vstd::prelude::*;

verus! {

/// Maps textual identifiers to small integer handles and back.
/// The handle of a text is the index of its first occurrence in the
/// append-only table, so interning the same text twice yields the same
/// handle, and a handle returned once stays resolvable forever.
pub struct StringInterner {
    strings: Vec<String>,
}

impl View for StringInterner {
    type V = Seq<Seq<char>>;

    closed spec fn view(&self) -> Seq<Seq<char>> {
        Seq::new(self.strings@.len(), |i: int| self.strings@[i]@)
    }
}

/// Index of the first entry equal to `text`, if any.
pub open spec fn find_text(syms: Seq<Seq<char>>, text: Seq<char>) -> Option<int>
    decreases syms.len(),
{
    if syms.len() == 0 {
        None
    } else if syms[0] == text {
        Some(0)
    } else {
        match find_text(syms.subrange(1, syms.len() as int), text) {
            Some(i) => Some(i + 1),
            None => None,
        }
    }
}

proof fn lemma_find_text_absent(syms: Seq<Seq<char>>, text: Seq<char>)
    requires
        forall|j: int| 0 <= j < syms.len() ==> syms[j] != text,
    ensures
        find_text(syms, text) is None,
    decreases syms.len(),
{
    if syms.len() > 0 {
        lemma_find_text_absent(syms.subrange(1, syms.len() as int), text);
    }
}

proof fn lemma_find_text_at(syms: Seq<Seq<char>>, text: Seq<char>, i: int)
    requires
        0 <= i < syms.len(),
        syms[i] == text,
        forall|j: int| 0 <= j < i ==> syms[j] != text,
    ensures
        find_text(syms, text) == Some(i),
    decreases i,
{
    if i > 0 {
        lemma_find_text_at(syms.subrange(1, syms.len() as int), text, i - 1);
    }
}

impl StringInterner {
    /// A fresh, empty interner.
    pub fn new() -> (r: StringInterner)
        ensures
            r@ == Seq::<Seq<char>>::empty(),
    {
        let r = StringInterner { strings: Vec::new() };
        proof {
            assert(r@ =~= Seq::<Seq<char>>::empty());
        }
        r
    }

    pub open spec fn len_spec(&self) -> nat {
        self@.len()
    }

    /// How many distinct texts have been interned so far.
    pub fn len(&self) -> (n: usize)
        ensures
            n == self.len_spec(),
    {
        self.strings.len()
    }

    /// Intern `s`: return the handle it already has, or append it and
    /// return the fresh handle.  Idempotent: the table is unchanged when
    /// the text is already present.
    pub fn intern(&mut self, s: &str) -> (h: usize)
        ensures
            match find_text(old(self)@, s@) {
                Some(i) => final(self)@ == old(self)@ && h == i,
                None => final(self)@ == old(self)@.push(s@) && h == old(self)@.len(),
            },
            h < final(self)@.len(),
            final(self)@[h as int] == s@,
            find_text(final(self)@, s@) == Some(h as int),
    {
        let text = s.to_owned();
        let n = self.strings.len();
        let mut i: usize = 0;
        while i < n
            invariant
                n == self.strings@.len(),
                text@ == s@,
                forall|j: int| 0 <= j < i ==> self@[j] != s@,
            decreases n - i,
        {
            if self.strings[i].eq(&text) {
                proof {
                    lemma_find_text_at(self@, s@, i as int);
                }
                return i;
            }
            i = i + 1;
        }
        proof {
            lemma_find_text_absent(self@, s@);
        }
        self.strings.push(text);
        proof {
            assert(self@ =~= old(self)@.push(s@));
            lemma_find_text_at(self@, s@, old(self)@.len() as int);
        }
        n
    }

    /// Append `s` without searching for an earlier occurrence.  Used while
    /// installing the fixed startup bindings, whose names are distinct.
    pub(crate) fn intern_push(&mut self, s: &str) -> (h: usize)
        ensures
            final(self)@ == old(self)@.push(s@),
            h == old(self)@.len(),
    {
        let n = self.strings.len();
        self.strings.push(s.to_owned());
        proof {
            assert(self@ =~= old(self)@.push(s@));
        }
        n
    }

    /// The canonical text of a handle returned by `intern`.
    pub fn resolve(&self, h: usize) -> (r: &String)
        requires
            h < self.len_spec(),
        ensures
            r@ == self@[h as int],
    {
        &self.strings[h]
    }
}

/// Interning is idempotent: once a text stands in the table, a later
/// intern of the same text returns its existing handle and changes
/// nothing.  In particular a freshly appended text is found at the index
/// it was appended at.
pub proof fn lemma_intern_idempotent(syms: Seq<Seq<char>>, text: Seq<char>)
    requires
        find_text(syms, text) is None,
    ensures
        find_text(syms.push(text), text) == Some(syms.len() as int),
{
    assert forall|j: int| 0 <= j < syms.len() implies syms.push(text)[j] != text by {
        if syms[j] == text {
            lemma_find_text_present(syms, text, j);
        }
    }
    lemma_find_text_at(syms.push(text), text, syms.len() as int);
}

/// A found handle always lies inside the table.
pub proof fn lemma_find_text_bound(syms: Seq<Seq<char>>, text: Seq<char>)
    requires
        find_text(syms, text) is Some,
    ensures
        0 <= find_text(syms, text)->0 < syms.len(),
    decreases syms.len(),
{
    if syms.len() > 0 && syms[0] != text {
        lemma_find_text_bound(syms.subrange(1, syms.len() as int), text);
    }
}

proof fn lemma_find_text_present(syms: Seq<Seq<char>>, text: Seq<char>, j: int)
    requires
        0 <= j < syms.len(),
        syms[j] == text,
    ensures
        find_text(syms, text) is Some,
    decreases j,
{
    if syms[0] != text && j > 0 {
        lemma_find_text_present(syms.subrange(1, syms.len() as int), text, j - 1);
    }
}

} // verus!
