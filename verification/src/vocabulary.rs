//! The set of glyphs that noise is drawn from, kept in a fixed order so that a
//! random index picks a glyph.

use vstd::prelude::*;

verus! {

/// Each glyph of `glyphs` is smaller, as a code point, than the one after it.
pub open spec fn strictly_ascending(glyphs: Seq<char>) -> bool {
    forall|i: int, j: int| 0 <= i < j < glyphs.len() ==> glyphs[i] < glyphs[j]
}

/// A set of glyphs, held as the ascending sequence of its members.
pub struct Vocabulary {
    glyphs: Vec<char>,
}

impl View for Vocabulary {
    type V = Seq<char>;

    /// The members, in ascending order of their code points.
    closed spec fn view(&self) -> Seq<char> {
        self.glyphs@
    }
}

impl Vocabulary {
    /// The members are in ascending order, so none occurs twice.
    pub open spec fn wf(&self) -> bool {
        strictly_ascending(self@)
    }

    /// The empty vocabulary.
    pub fn empty() -> (vocabulary: Self)
        ensures
            vocabulary.wf(),
            vocabulary@.len() == 0,
    {
        Vocabulary { glyphs: Vec::new() }
    }

    /// The number of members.
    pub fn len(&self) -> (n: usize)
        ensures
            n == self@.len(),
    {
        self.glyphs.len()
    }

    /// The member at `index`, counting in ascending order from zero.
    pub fn glyph(&self, index: usize) -> (glyph: char)
        requires
            index < self@.len(),
        ensures
            glyph == self@[index as int],
    {
        self.glyphs[index]
    }

    /// Tells whether `glyph` is a member.
    pub fn contains(&self, glyph: char) -> (found: bool)
        ensures
            found == self@.contains(glyph),
    {
        for at in 0..self.glyphs.len()
            invariant
                forall|i: int| 0 <= i < at ==> self@[i] != glyph,
        {
            if self.glyphs[at] == glyph {
                return true;
            }
        }
        false
    }

    /// Adds `glyph` to the set; a glyph that is a member already changes nothing.
    pub fn insert(&mut self, glyph: char)
        requires
            old(self).wf(),
        ensures
            final(self).wf(),
            forall|c: char| final(self)@.contains(c) <==> (c == glyph || old(self)@.contains(c)),
            old(self)@.contains(glyph) ==> final(self)@ == old(self)@,
            !old(self)@.contains(glyph) ==> final(self)@.len() == old(self)@.len() + 1,
    {
        let mut at: usize = 0;
        while at < self.glyphs.len() && self.glyphs[at] < glyph
            invariant
                at <= self.glyphs.len(),
                *self == *old(self),
                forall|i: int| 0 <= i < at ==> self@[i] < glyph,
            decreases self.glyphs.len() - at,
        {
            at += 1;
        }
        if at < self.glyphs.len() && self.glyphs[at] == glyph {
            assert(self@[at as int] == glyph);
        } else {
            assert(!self@.contains(glyph)) by {
                if self@.contains(glyph) {
                    let i = choose|i: int| 0 <= i < self@.len() && self@[i] == glyph;
                    if i > at {
                        assert(self@[at as int] < self@[i]);
                    }
                }
            }
            self.glyphs.insert(at, glyph);
            assert(forall|i: int| at < i < self@.len() ==> self@[i] == old(self)@[i - 1]);
            assert(forall|i: int| 0 <= i < at ==> self@[i] == old(self)@[i]);
            assert(forall|i: int| at < i < self@.len() ==> glyph < self@[i]) by {
                if at < old(self)@.len() {
                    assert(glyph < old(self)@[at as int]);
                }
            }
            assert(strictly_ascending(self@));
            assert forall|c: char| self@.contains(c) <==> (c == glyph || old(self)@.contains(c)) by {
                if self@.contains(c) {
                    let i = choose|i: int| 0 <= i < self@.len() && self@[i] == c;
                    if i < at {
                        assert(old(self)@[i] == c);
                    } else if i > at {
                        assert(old(self)@[i - 1] == c);
                    }
                }
                if old(self)@.contains(c) {
                    let i = choose|i: int| 0 <= i < old(self)@.len() && old(self)@[i] == c;
                    if i < at {
                        assert(self@[i] == c);
                    } else {
                        assert(self@[i + 1] == c);
                    }
                }
                if c == glyph {
                    assert(self@[at as int] == c);
                }
            }
        }
    }

    /// The glyphs of `glyphs`, each once, together with `always`.
    pub fn collect(glyphs: &Vec<char>, always: char) -> (vocabulary: Self)
        ensures
            vocabulary.wf(),
            forall|c: char| vocabulary@.contains(c) <==> (c == always || glyphs@.contains(c)),
    {
        let mut vocabulary = Vocabulary::empty();
        vocabulary.insert(always);
        for k in 0..glyphs.len()
            invariant
                vocabulary.wf(),
                forall|c: char|
                    vocabulary@.contains(c) <==> (c == always || glyphs@.take(k as int).contains(c)),
        {
            let ghost before = vocabulary@;
            vocabulary.insert(glyphs[k]);
            assert forall|c: char|
                vocabulary@.contains(c) <==> (c == always || glyphs@.take(k + 1).contains(c)) by {
                let shorter = glyphs@.take(k as int);
                let longer = glyphs@.take(k + 1);
                assert(longer =~= shorter.push(glyphs@[k as int]));
                if shorter.contains(c) {
                    let i = choose|i: int| 0 <= i < shorter.len() && shorter[i] == c;
                    assert(longer[i] == c);
                }
                if longer.contains(c) && c != glyphs@[k as int] {
                    let i = choose|i: int| 0 <= i < longer.len() && longer[i] == c;
                    assert(shorter[i] == c);
                }
                assert(longer[k as int] == glyphs@[k as int]);
            }
        }
        assert(glyphs@.take(glyphs@.len() as int) =~= glyphs@);
        vocabulary
    }
}

} // verus!
