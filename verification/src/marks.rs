//! The visited set of the flood fill: one flag for each pixel of an image,
//! held in a single linear buffer and found by position.

use crate::raster::{lemma_offset_injective, Image};
use vstd::prelude::*;

verus! {

/// How many flags of `flags` are still `false`.
pub open spec fn count_unset(flags: Seq<bool>) -> nat
    decreases flags.len(),
{
    if flags.len() == 0 {
        0
    } else {
        count_unset(flags.drop_last()) + if flags.last() {
            0nat
        } else {
            1nat
        }
    }
}

proof fn lemma_count_unset_update(flags: Seq<bool>, i: int)
    requires
        0 <= i < flags.len(),
        !flags[i],
    ensures
        count_unset(flags.update(i, true)) + 1 == count_unset(flags),
    decreases flags.len(),
{
    let updated = flags.update(i, true);
    if i == flags.len() - 1 {
        assert(updated.drop_last() =~= flags.drop_last());
    } else {
        assert(updated.drop_last() =~= flags.drop_last().update(i, true));
        lemma_count_unset_update(flags.drop_last(), i);
    }
}

/// A set of positions of a `width` by `height` image.
pub struct Marks {
    width: u32,
    height: u32,
    flags: Vec<bool>,
}

impl Marks {
    #[verifier::type_invariant]
    spec fn well_formed(self) -> bool {
        self.flags@.len() == self.width * self.height
    }

    /// The width of the image that the positions belong to.
    pub closed spec fn width(self) -> nat {
        self.width as nat
    }

    /// The height of the image that the positions belong to.
    pub closed spec fn height(self) -> nat {
        self.height as nat
    }

    /// Whether `(x, y)` is in the set. Positions outside the image never are.
    pub closed spec fn has(self, x: int, y: int) -> bool {
        &&& 0 <= x < self.width
        &&& 0 <= y < self.height
        &&& self.flags@[y * self.width + x]
    }

    /// How many positions of the image are not in the set.
    pub closed spec fn unmarked(self) -> nat {
        count_unset(self.flags@)
    }

    /// Only positions of the image are in the set.
    pub proof fn lemma_has_inside(self, x: int, y: int)
        ensures
            self.has(x, y) ==> 0 <= x < self.width() && 0 <= y < self.height(),
    {
    }

    /// The empty set of positions of `image`.
    pub fn for_image(image: &Image) -> (marks: Marks)
        ensures
            marks.width() == image@.width,
            marks.height() == image@.height,
            forall|x: int, y: int| !marks.has(x, y),
    {
        let width = image.width();
        let height = image.height();
        let total: usize = image.as_raw().len() / 4;
        let mut flags: Vec<bool> = Vec::new();
        while flags.len() < total
            invariant
                flags@.len() <= total,
                forall|i: int| 0 <= i < flags@.len() ==> !flags@[i],
            decreases total - flags@.len(),
        {
            flags.push(false);
        }
        let marks = Marks { width, height, flags };
        assert forall|x: int, y: int| !marks.has(x, y) by {
            if 0 <= x < width && 0 <= y < height {
                crate::raster::lemma_offset_in_range(width as nat, height as nat, x, y);
            }
        }
        marks
    }

    fn offset(&self, x: u32, y: u32) -> (k: usize)
        requires
            x < self.width(),
            y < self.height(),
        ensures
            k == y * self.width + x,
            k < self.flags@.len(),
    {
        proof {
            use_type_invariant(self);
            let w = self.width as int;
            let h = self.height as int;
            assert(self.flags@.len() == self.flags.len());
            assert(0 <= y * w && y * w + x < w * h) by (nonlinear_arith)
                requires
                    0 <= x < w,
                    0 <= y < h,
            ;
        }
        y as usize * self.width as usize + x as usize
    }

    /// Whether `(x, y)` is in the set.
    pub fn contains(&self, x: u32, y: u32) -> (found: bool)
        requires
            x < self.width(),
            y < self.height(),
        ensures
            found == self.has(x as int, y as int),
    {
        let k = self.offset(x, y);
        self.flags[k]
    }

    /// Adds `(x, y)` to the set.
    pub fn insert(&mut self, x: u32, y: u32)
        requires
            x < old(self).width(),
            y < old(self).height(),
        ensures
            final(self).width() == old(self).width(),
            final(self).height() == old(self).height(),
            forall|x2: int, y2: int|
                #[trigger] final(self).has(x2, y2) == (old(self).has(x2, y2) || (x2 == x && y2
                    == y)),
            !old(self).has(x as int, y as int) ==> final(self).unmarked() + 1 == old(
                self,
            ).unmarked(),
            old(self).has(x as int, y as int) ==> final(self).unmarked() == old(self).unmarked(),
    {
        let k = self.offset(x, y);
        proof {
            use_type_invariant(&*self);
            if !self.flags@[k as int] {
                lemma_count_unset_update(self.flags@, k as int);
            } else {
                assert(self.flags@.update(k as int, true) =~= self.flags@);
            }
        }
        self.flags[k] = true;
        proof {
            assert forall|x2: int, y2: int|
                #[trigger] self.has(x2, y2) == (old(self).has(x2, y2) || (x2 == x && y2
                    == y)) by {
                if 0 <= x2 < self.width && 0 <= y2 < self.height {
                    crate::raster::lemma_offset_in_range(
                        self.width as nat,
                        self.height as nat,
                        x2,
                        y2,
                    );
                    if y2 * self.width + x2 == y * self.width + x {
                        lemma_offset_injective(self.width as nat, x2, y2, x as int, y as int);
                    }
                }
            }
        }
    }
}

} // verus!
