//! Material parameters of a texture, decided from its name and from which
//! companion images were found beside its base image.
use vstd::prelude::*;
use crate::text::chars_of;
use crate::texture::{foliage, has_pair, holds_pair, is_foliage, is_masked, masked};

verus! {

/// Which companion images of a texture exist.
#[derive(Clone, Copy, Debug, PartialEq, Eq, Structural)]
pub struct FoundMaps {
    pub metallic_roughness: bool,
    pub normal_map: bool,
    pub depth_map: bool,
    pub occlusion: bool,
    pub emissive: bool,
    pub specular_transmission: bool,
    pub diffuse_transmission: bool,
}

/// Material parameters, each in thousandths.
#[derive(Clone, Copy, Debug, PartialEq, Eq, Structural)]
pub struct MaterialParams {
    pub perceptual_roughness: i64,
    pub metallic: i64,
    pub reflectance: i64,
    /// The alpha cut-off when the texture is masked.
    pub alpha_cutoff: Option<i64>,
    pub specular_transmission: i64,
    pub thickness: i64,
    pub diffuse_transmission: i64,
    /// Emissive strength of each colour channel.
    pub emissive: i64,
    pub parallax_depth_scale: i64,
    pub relief_steps: u32,
}

pub open spec fn params_of(name: Seq<char>, f: FoundMaps) -> MaterialParams {
    MaterialParams {
        perceptual_roughness: if f.metallic_roughness { 1000 } else { 550 },
        metallic: if f.metallic_roughness { 1000 } else { 0 },
        reflectance: if f.metallic_roughness { 500 } else { 0 },
        alpha_cutoff: if masked(name) { Some(500) } else { None },
        specular_transmission: if f.specular_transmission { 1000 } else { 0 },
        thickness: if f.specular_transmission { 100 } else { 0 },
        diffuse_transmission: if f.diffuse_transmission {
            1000
        } else if foliage(name) {
            500
        } else {
            0
        },
        emissive: if f.emissive { 30_000 } else { 0 },
        parallax_depth_scale: 40,
        relief_steps: 20,
    }
}

/// The material of texture `name` given the companion images found.
pub fn material_params(name: &str, found: FoundMaps) -> (r: MaterialParams)
    ensures
        r == params_of(name@, found),
{
    let mr = found.metallic_roughness;
    let st = found.specular_transmission;
    MaterialParams {
        perceptual_roughness: if mr { 1000 } else { 550 },
        metallic: if mr { 1000 } else { 0 },
        reflectance: if mr { 500 } else { 0 },
        alpha_cutoff: if is_masked(name) { Some(500) } else { None },
        specular_transmission: if st { 1000 } else { 0 },
        thickness: if st { 100 } else { 0 },
        diffuse_transmission: if found.diffuse_transmission {
            1000
        } else if is_foliage(name) {
            500
        } else {
            0
        },
        emissive: if found.emissive { 30_000 } else { 0 },
        parallax_depth_scale: 40,
        relief_steps: 20,
    }
}

/// `t` holds `w` starting at some position.
pub open spec fn holds_word(t: Seq<char>, w: Seq<char>) -> bool {
    exists|i: int| 0 <= i && i + w.len() <= t.len() && #[trigger] t.subrange(i, i + w.len()) == w
}

/// Image files of masked or foliage textures, and normal maps, are sampled
/// without filtering.
pub open spec fn nearest_filter(file: Seq<char>) -> bool {
    holds_pair(file, '-', 'm') || holds_pair(file, '-', 'f') || holds_word(file, ".normal_map"@)
}

fn has_word(t: &Vec<char>, w: &Vec<char>) -> (r: bool)
    ensures
        r == holds_word(t@, w@),
{
    if w.len() > t.len() {
        return false;
    }
    let mut i: usize = 0;
    while i <= t.len() - w.len()
        invariant
            w.len() <= t.len(),
            i <= t.len() - w.len() + 1,
            forall|q: int| 0 <= q < i && q + w.len() <= t.len() ==> #[trigger] t@.subrange(q, q + w.len()) != w@,
        decreases t.len() - i,
    {
        let mut k: usize = 0;
        let mut same = true;
        while k < w.len()
            invariant
                i + w.len() <= t.len(),
                k <= w.len(),
                same == forall|q: int| 0 <= q < k ==> t@[i + q] == w@[q],
            decreases w.len() - k,
        {
            if t[i + k] != w[k] {
                same = false;
            }
            k = k + 1;
        }
        if same {
            assert(t@.subrange(i as int, i + w.len()) =~= w@);
            return true;
        }
        assert(t@.subrange(i as int, i + w.len()) != w@) by {
            let q = choose|q: int| 0 <= q < w.len() && t@[i + q] != w@[q];
            assert(t@.subrange(i as int, i + w.len())[q] == t@[i + q]);
        }
        i = i + 1;
    }
    false
}

/// Whether image `file` is sampled without filtering.
pub fn uses_nearest_filter(file: &str) -> (r: bool)
    ensures
        r == nearest_filter(file@),
{
    let t = chars_of(file);
    let w = chars_of(".normal_map");
    has_pair(&t, '-', 'm') || has_pair(&t, '-', 'f') || has_word(&t, &w)
}

} // verus!
