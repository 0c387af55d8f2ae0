//! Font capability, as data: for each 1-based font slot, its drawing style
//! and the set of characters it can draw. Callers that load real font
//! files enumerate each font's character map into a slot's `glyphs`.

use vstd::prelude::*;
use crate::config::{ConfigError, FONT_SIZE_LIMIT};

verus! {

/// One font slot: its id, rotation and sizes, and the characters the
/// loaded font contains.
#[derive(Debug, Clone)]
pub struct FontSlotStyle {
    /// 1-based slot id.
    pub id: usize,
    /// Rotation the slot always applies, in millidegrees.
    pub rotate_mdeg: i64,
    /// Glyph size for main text, in milli-units.
    pub text_size: i64,
    /// Glyph size for annotation text, in milli-units.
    pub comment_size: i64,
    /// The characters this font can draw.
    pub glyphs: Vec<char>,
}

impl FontSlotStyle {
    pub open spec fn wf(self) -> bool {
        &&& -360_000 <= self.rotate_mdeg <= 360_000
        &&& 0 <= self.text_size <= FONT_SIZE_LIMIT
        &&& 0 <= self.comment_size <= FONT_SIZE_LIMIT
    }
}

/// The loaded font slots and the two priority stacks.
#[derive(Debug, Clone)]
pub struct FontBank {
    /// Slot `id` lives at index `id - 1`; an empty slot holds `None`.
    pub slots: Vec<Option<FontSlotStyle>>,
    /// Slot ids tried in order for main text.
    pub text_stack: Vec<usize>,
    /// Slot ids tried in order for annotation text.
    pub comment_stack: Vec<usize>,
}

impl FontBank {
    pub open spec fn wf(self) -> bool {
        forall|i: int|
            0 <= i < self.slots@.len() ==> match #[trigger] self.slots@[i] {
                Some(s) => s.wf(),
                None => true,
            }
    }

    /// The style of slot `idx`: id 0 and out-of-range ids name no font.
    pub open spec fn spec_font(self, idx: int) -> Option<FontSlotStyle> {
        if idx == 0 || idx > self.slots@.len() || idx < 0 {
            None
        } else {
            self.slots@[idx - 1]
        }
    }

    /// Whether slot `idx` holds a font that can draw `ch`.
    pub open spec fn spec_has_glyph(self, idx: int, ch: char) -> bool {
        match self.spec_font(idx) {
            Some(f) => f.glyphs@.contains(ch),
            None => false,
        }
    }

    /// The first slot of `stack` that can draw `ch`: stack order is a
    /// strict priority, not best fit.
    pub open spec fn spec_pick(self, ch: char, stack: Seq<usize>) -> Option<usize>
        decreases stack.len(),
    {
        if stack.len() == 0 {
            None
        } else if self.spec_has_glyph(stack[0] as int, ch) {
            Some(stack[0])
        } else {
            self.spec_pick(ch, stack.drop_first())
        }
    }

    /// The style of slot `idx`, if one is loaded there.
    pub fn font(&self, idx: usize) -> (r: Option<&FontSlotStyle>)
        ensures
            match r {
                Some(f) => self.spec_font(idx as int) == Some(*f),
                None => self.spec_font(idx as int) is None,
            },
    {
        if idx == 0 {
            return None;
        }
        if idx > self.slots.len() {
            return None;
        }
        match &self.slots[idx - 1] {
            Some(f) => Some(f),
            None => None,
        }
    }

    /// Whether slot `idx` can draw `ch`.
    pub fn has_glyph(&self, idx: usize, ch: char) -> (r: bool)
        ensures
            r == self.spec_has_glyph(idx as int, ch),
    {
        match self.font(idx) {
            Some(f) => crate::chars::contains_char(&f.glyphs, ch),
            None => false,
        }
    }

    /// The first slot of `stack` that can draw `ch`.
    pub fn pick_font(&self, ch: char, stack: &Vec<usize>) -> (r: Option<usize>)
        ensures
            r == self.spec_pick(ch, stack@),
            match r {
                Some(idx) => stack@.contains(idx) && self.spec_has_glyph(idx as int, ch)
                    && self.spec_font(idx as int) is Some,
                None => forall|i: int|
                    0 <= i < stack@.len() ==> !self.spec_has_glyph(stack@[i] as int, ch),
            },
    {
        let ghost gstack = stack@;
        proof {
            assert(gstack.subrange(0, gstack.len() as int) =~= gstack);
        }
        let mut i: usize = 0;
        while i < stack.len()
            invariant
                i <= gstack.len(),
                gstack == stack@,
                forall|m: int| 0 <= m < i ==> !self.spec_has_glyph(gstack[m] as int, ch),
                self.spec_pick(ch, gstack) == self.spec_pick(
                    ch,
                    gstack.subrange(i as int, gstack.len() as int),
                ),
            decreases stack.len() - i,
        {
            proof {
                let s = gstack.subrange(i as int, gstack.len() as int);
                assert(s.len() > 0 && s[0] == gstack[i as int]);
                assert(s.drop_first() =~= gstack.subrange(i as int + 1, gstack.len() as int));
            }
            let idx = stack[i];
            if self.has_glyph(idx, ch) {
                return Some(idx);
            }
            i = i + 1;
        }
        proof {
            assert(gstack.subrange(gstack.len() as int, gstack.len() as int).len() == 0);
        }
        None
    }

    /// Rejects empty font stacks: each kind of text needs at least one
    /// slot to try.
    pub fn validate(&self) -> (r: Result<(), ConfigError>)
        ensures
            r == (if self.text_stack@.len() == 0 || self.comment_stack@.len() == 0 {
                Err::<(), ConfigError>(ConfigError::EmptyFontStack)
            } else {
                Ok::<(), ConfigError>(())
            }),
    {
        if self.text_stack.len() == 0 || self.comment_stack.len() == 0 {
            return Err(ConfigError::EmptyFontStack);
        }
        Ok(())
    }
}

/// A successful pick names a loaded slot from the stack that draws the
/// character.
pub proof fn lemma_pick_found(bank: FontBank, ch: char, stack: Seq<usize>)
    requires
        bank.spec_pick(ch, stack) is Some,
    ensures
        ({
            let idx = bank.spec_pick(ch, stack)->Some_0;
            stack.contains(idx) && bank.spec_has_glyph(idx as int, ch) && bank.spec_font(
                idx as int,
            ) is Some
        }),
    decreases stack.len(),
{
    if stack.len() > 0 {
        if bank.spec_has_glyph(stack[0] as int, ch) {
            assert(stack[0] == bank.spec_pick(ch, stack)->Some_0);
        } else {
            let rest = stack.drop_first();
            lemma_pick_found(bank, ch, rest);
            let idx = bank.spec_pick(ch, stack)->Some_0;
            let w = choose|i: int| 0 <= i < rest.len() && rest[i] == idx;
            assert(stack[w + 1] == idx);
        }
    }
}

/// Stack order is a strict priority: a character present in the first
/// slot of a stack always resolves to that slot.
pub proof fn lemma_first_slot_priority(bank: FontBank, ch: char, stack: Seq<usize>)
    requires
        stack.len() > 0,
        bank.spec_has_glyph(stack[0] as int, ch),
    ensures
        bank.spec_pick(ch, stack) == Some(stack[0]),
{
}

} // verus!
