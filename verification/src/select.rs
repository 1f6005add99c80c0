//! The resolution selector: of several candidate images for one request,
//! the one that fits the target resolution best.

use crate::codec::{decode_rgba, decoded_size};
use crate::data_url::{is_well_shaped, parse_data_url, payload_of};
use crate::codec::base64_bytes;
use crate::text::trimmed;
use crate::models::Resolution;
use crate::raster::mul_u32;
use vstd::prelude::*;

verus! {

/// A candidate image that could be decoded: its place in the list that it
/// came in, and its size.
#[derive(Debug, Clone, Copy, PartialEq, Eq, Structural)]
pub struct Candidate {
    pub index: usize,
    pub width: u32,
    pub height: u32,
}

impl Candidate {
    /// The longer of width and height.
    pub open spec fn long_edge(self) -> int {
        if self.width >= self.height {
            self.width as int
        } else {
            self.height as int
        }
    }

    /// The number of pixels.
    pub open spec fn area(self) -> int {
        self.width * self.height
    }

    /// How far the long edge is from `target`.
    pub open spec fn distance(self, target: int) -> int {
        if self.long_edge() >= target {
            self.long_edge() - target
        } else {
            target - self.long_edge()
        }
    }

    /// Whether the long edge is exactly `target`.
    pub open spec fn is_exact(self, target: int) -> bool {
        self.long_edge() == target
    }
}

/// Whether `a` ranks before `b`: it is nearer to the target; or as near and
/// larger; or as near, as large and earlier in the list.
pub open spec fn ranks_before(a: Candidate, b: Candidate, target: int) -> bool {
    ||| a.distance(target) < b.distance(target)
    ||| (a.distance(target) == b.distance(target) && a.area() > b.area())
    ||| (a.distance(target) == b.distance(target) && a.area() == b.area() && a.index < b.index)
}

/// Whether some candidate has exactly the target as its long edge.
pub open spec fn has_exact(candidates: Seq<Candidate>, target: int) -> bool {
    exists|j: int| 0 <= j < candidates.len() && (#[trigger] candidates[j]).is_exact(target)
}

/// Whether the candidate at position `k` is the one to choose: the first
/// with exactly the target as its long edge where there is one; else the
/// first of those before which no other ranks.
pub open spec fn is_choice(candidates: Seq<Candidate>, target: int, k: int) -> bool {
    &&& 0 <= k < candidates.len()
    &&& if has_exact(candidates, target) {
        &&& candidates[k].is_exact(target)
        &&& forall|j: int| 0 <= j < k ==> !(#[trigger] candidates[j]).is_exact(target)
    } else {
        &&& forall|j: int|
            0 <= j < candidates.len() ==> !ranks_before(#[trigger] candidates[j], candidates[k], target)
        &&& forall|j: int|
            0 <= j < k ==> ranks_before(candidates[k], #[trigger] candidates[j], target)
    }
}

/// The long edge, in pixels, of a resolution.
pub fn resolution_long_edge(resolution: Resolution) -> (edge: u32)
    ensures
        edge == resolution.long_edge(),
{
    match resolution {
        Resolution::OneK => 1024,
        Resolution::TwoK => 2048,
        Resolution::FourK => 4096,
    }
}

fn long_edge_of(candidate: &Candidate) -> (edge: u32)
    ensures
        edge == candidate.long_edge(),
{
    if candidate.width >= candidate.height {
        candidate.width
    } else {
        candidate.height
    }
}

fn distance_of(candidate: &Candidate, target: u32) -> (distance: u32)
    ensures
        distance == candidate.distance(target as int),
{
    let edge = long_edge_of(candidate);
    if edge >= target {
        edge - target
    } else {
        target - edge
    }
}

fn goes_before(a: &Candidate, b: &Candidate, target: u32) -> (before: bool)
    ensures
        before == ranks_before(*a, *b, target as int),
{
    let da = distance_of(a, target);
    let db = distance_of(b, target);
    if da != db {
        return da < db;
    }
    let area_a = mul_u32(a.width, a.height);
    let area_b = mul_u32(b.width, b.height);
    if area_a != area_b {
        return area_a > area_b;
    }
    a.index < b.index
}

/// Chooses among decoded candidates, given in the order of the list that
/// they came in. Returns the position of the chosen one, or `None` where
/// there is no candidate.
pub fn select_candidate(candidates: &Vec<Candidate>, target_long_edge: u32) -> (chosen: Option<
    usize,
>)
    ensures
        match chosen {
            Some(k) => is_choice(candidates@, target_long_edge as int, k as int),
            None => candidates@.len() == 0,
        },
{
    if candidates.len() == 0 {
        return None;
    }
    let ghost target = target_long_edge as int;
    let mut i: usize = 0;
    while i < candidates.len()
        invariant
            i <= candidates@.len(),
            target == target_long_edge as int,
            forall|j: int| 0 <= j < i ==> !(#[trigger] candidates@[j]).is_exact(target),
        decreases candidates@.len() - i,
    {
        if long_edge_of(&candidates[i]) == target_long_edge {
            proof {
                assert(candidates@[i as int].is_exact(target));
            }
            return Some(i);
        }
        i = i + 1;
    }
    let mut best: usize = 0;
    let mut next: usize = 1;
    while next < candidates.len()
        invariant
            best < next <= candidates@.len(),
            target == target_long_edge as int,
            !has_exact(candidates@, target),
            forall|j: int|
                0 <= j < next ==> !ranks_before(
                    #[trigger] candidates@[j],
                    candidates@[best as int],
                    target,
                ),
            forall|j: int|
                0 <= j < best ==> ranks_before(
                    candidates@[best as int],
                    #[trigger] candidates@[j],
                    target,
                ),
        decreases candidates@.len() - next,
    {
        if goes_before(&candidates[next], &candidates[best], target_long_edge) {
            best = next;
        }
        next = next + 1;
    }
    Some(best)
}

/// The size of the image that a data URL carries; `None` where the string
/// is no data URL or its bytes are no image.
pub open spec fn candidate_size(url: Seq<char>) -> Option<(u32, u32)> {
    if is_well_shaped(url) {
        match base64_bytes(trimmed(payload_of(url))) {
            Some(bytes) => decoded_size(bytes),
            None => None,
        }
    } else {
        None
    }
}

/// Whether the data URL at position `j` carries an image.
pub open spec fn decodes(urls: Seq<String>, j: int) -> bool {
    0 <= j < urls.len() && candidate_size(urls[j]@) is Some
}

/// The candidate that the data URL at position `j` carries.
pub open spec fn candidate_of(urls: Seq<String>, j: int) -> Candidate {
    let (width, height) = candidate_size(urls[j]@)->0;
    Candidate { index: j as usize, width, height }
}

/// Whether the data URL at position `i` is the one to choose of several:
/// the very first where none carries an image; else the first that carries
/// an image with exactly the target as its long edge; else the one that
/// ranks before every other that carries an image.
pub open spec fn is_pick(urls: Seq<String>, target: int, i: int) -> bool {
    &&& 0 <= i < urls.len()
    &&& if !(exists|j: int| decodes(urls, j)) {
        i == 0
    } else if exists|j: int| decodes(urls, j) && candidate_of(urls, j).is_exact(target) {
        &&& decodes(urls, i)
        &&& candidate_of(urls, i).is_exact(target)
        &&& forall|j: int| 0 <= j < i && decodes(urls, j) ==> !candidate_of(urls, j).is_exact(target)
    } else {
        &&& decodes(urls, i)
        &&& forall|j: int|
            decodes(urls, j) && j != i ==> ranks_before(
                candidate_of(urls, i),
                candidate_of(urls, j),
                target,
            )
    }
}

fn single(url: &String) -> (list: Vec<String>)
    ensures
        list@.len() == 1,
        list@[0]@ == url@,
{
    let mut list: Vec<String> = Vec::new();
    list.push(url.clone());
    list
}

/// Of several data URLs returned for one request, keeps the one whose
/// image fits the resolution best. A list of at most one is passed through.
/// Strings that carry no image are passed over; where none carries one,
/// the first string is kept.
pub fn choose_best_images_for_resolution(data_urls: &[String], resolution: Resolution) -> (chosen:
    Vec<String>)
    ensures
        data_urls@.len() <= 1 ==> chosen@.len() == data_urls@.len() && forall|i: int|
            0 <= i < chosen@.len() ==> chosen@[i]@ == data_urls@[i]@,
        data_urls@.len() > 1 ==> chosen@.len() == 1 && exists|i: int|
            is_pick(data_urls@, resolution.long_edge(), i) && chosen@[0]@ == data_urls@[i]@,
{
    if data_urls.len() == 0 {
        return Vec::new();
    }
    if data_urls.len() == 1 {
        return single(&data_urls[0]);
    }
    let target_long_edge = resolution_long_edge(resolution);
    let ghost urls = data_urls@;
    let ghost target = target_long_edge as int;
    let mut ranked: Vec<Candidate> = Vec::new();
    let mut index: usize = 0;
    while index < data_urls.len()
        invariant
            index <= urls.len(),
            urls == data_urls@,
            urls.len() > 1,
            target == resolution.long_edge(),
            target == target_long_edge as int,
            forall|k: int|
                0 <= k < ranked@.len() ==> (#[trigger] ranked@[k]).index < index && decodes(
                    urls,
                    ranked@[k].index as int,
                ) && ranked@[k] == candidate_of(urls, ranked@[k].index as int)
                    && !ranked@[k].is_exact(target),
            forall|j: int|
                0 <= j < index && decodes(urls, j) ==> exists|k: int|
                    0 <= k < ranked@.len() && (#[trigger] ranked@[k]).index == j,
        decreases urls.len() - index,
    {
        let url = &data_urls[index];
        match parse_data_url(url.as_str()) {
            Ok(parsed) => {
                match decode_rgba(parsed.bytes.as_slice()) {
                    Ok((width, height, _)) => {
                        let candidate = Candidate { index, width, height };
                        proof {
                            assert(decodes(urls, index as int));
                            assert(candidate == candidate_of(urls, index as int));
                        }
                        if long_edge_of(&candidate) == target_long_edge {
                            let list = single(url);
                            proof {
                                assert forall|j: int|
                                    0 <= j < index && decodes(urls, j) implies !candidate_of(
                                    urls,
                                    j,
                                ).is_exact(target) by {
                                    let k = choose|k: int|
                                        0 <= k < ranked@.len() && (#[trigger] ranked@[k]).index
                                            == j;
                                    assert(ranked@[k] == candidate_of(urls, j));
                                }
                                assert(is_pick(urls, target, index as int));
                            }
                            return list;
                        }
                        let ghost before = ranked@;
                        ranked.push(candidate);
                        proof {
                            assert(ranked@[before.len() as int] == candidate);
                            assert forall|j: int| 0 <= j < index + 1 && decodes(urls, j) implies exists|
                                k: int,
                            |
                                0 <= k < ranked@.len() && (#[trigger] ranked@[k]).index == j by {
                                if j < index {
                                    let k = choose|k: int|
                                        0 <= k < before.len() && (#[trigger] before[k]).index == j;
                                    assert(ranked@[k] == before[k]);
                                } else {
                                    assert(ranked@[before.len() as int].index == j);
                                }
                            }
                        }
                    },
                    Err(_) => {
                        proof {
                            assert(!decodes(urls, index as int));
                        }
                    },
                }
            },
            Err(_) => {
                proof {
                    assert(!decodes(urls, index as int));
                }
            },
        }
        index = index + 1;
    }
    match select_candidate(&ranked, target_long_edge) {
        None => {
            let list = single(&data_urls[0]);
            proof {
                assert forall|j: int| !decodes(urls, j) by {
                    if decodes(urls, j) {
                        let k = choose|k: int|
                            0 <= k < ranked@.len() && (#[trigger] ranked@[k]).index == j;
                    }
                }
                assert(is_pick(urls, target, 0));
            }
            list
        },
        Some(k) => {
            let best = ranked[k].index;
            let list = single(&data_urls[best]);
            proof {
                assert(!has_exact(ranked@, target));
                assert(decodes(urls, best as int));
                assert forall|j: int|
                    decodes(urls, j) implies !candidate_of(urls, j).is_exact(target) by {
                    let m = choose|m: int|
                        0 <= m < ranked@.len() && (#[trigger] ranked@[m]).index == j;
                    assert(ranked@[m] == candidate_of(urls, j));
                }
                assert forall|j: int| decodes(urls, j) && j != best implies ranks_before(
                    candidate_of(urls, best as int),
                    candidate_of(urls, j),
                    target,
                ) by {
                    let m = choose|m: int|
                        0 <= m < ranked@.len() && (#[trigger] ranked@[m]).index == j;
                    assert(ranked@[m] == candidate_of(urls, j));
                    assert(!ranks_before(ranked@[m], ranked@[k as int], target));
                }
                assert(is_pick(urls, target, best as int));
            }
            list
        },
    }
}

/// Of two candidates that are equally far from a target, the one with the
/// larger area is chosen; where the areas are equal too, the earlier one.
///
/// Two candidates that both have exactly the target as their long edge are
/// left out where the later one is larger, since the first exact match is
/// taken whatever its area.
pub proof fn lemma_tie_break(first: Candidate, second: Candidate, target: int, k: int)
    requires
        first.index < second.index,
        first.distance(target) == second.distance(target),
        first.is_exact(target) ==> first.area() >= second.area(),
        is_choice(seq![first, second], target, k),
    ensures
        first.area() > second.area() ==> k == 0,
        first.area() < second.area() ==> k == 1,
        first.area() == second.area() ==> k == 0,
{
    let both = seq![first, second];
    assert(both[0] == first);
    assert(both[1] == second);
    if has_exact(both, target) {
        assert(first.is_exact(target));
    }
}

} // verus!
