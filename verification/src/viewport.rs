use vstd::prelude::*;
use crate::text::str_eq;

verus! {

/// How the object viewport draws a part.
#[derive(Clone, Copy, Debug, PartialEq, Eq, Structural)]
pub enum ShadingMode {
    Wireframe,
    Solid,
    Textured,
}

/// The shading mode a part's shading-model name selects: "Wireframe";
/// "Solid", "Flat" or "Smooth" for solid shading; anything else textured.
pub open spec fn shading_of(model: Seq<char>) -> ShadingMode {
    if model == "Wireframe"@ {
        ShadingMode::Wireframe
    } else if model == "Solid"@ || model == "Flat"@ || model == "Smooth"@ {
        ShadingMode::Solid
    } else {
        ShadingMode::Textured
    }
}

pub fn parse_shading(model: &str) -> (m: ShadingMode)
    ensures
        m == shading_of(model@),
{
    if str_eq(model, "Wireframe") {
        ShadingMode::Wireframe
    } else if str_eq(model, "Solid") || str_eq(model, "Flat") || str_eq(model, "Smooth") {
        ShadingMode::Solid
    } else {
        ShadingMode::Textured
    }
}

fn scale_channel(a: u8, b: u8) -> (r: u8)
    ensures
        r as int == (a as int * b as int) / 255,
{
    assert(a as int * b as int <= 255 * 255) by (nonlinear_arith)
        requires
            0 <= a <= 255,
            0 <= b <= 255,
    ;
    let p = a as u16 * b as u16;
    (p / 255) as u8
}

/// `base` tinted by `tint`: each channel scaled by the tint's channel out
/// of 255, rounded down.
pub fn tint_rgb(base: [u8; 3], tint: [u8; 3]) -> (r: [u8; 3])
    ensures
        forall|c: int| 0 <= c < 3 ==> r[c] as int == (base[c] as int * tint[c] as int) / 255,
        forall|c: int| 0 <= c < 3 ==> r[c] <= base[c],
{
    proof {
        assert forall|a: int, b: int| 0 <= a <= 255 && 0 <= b <= 255 implies #[trigger] (a * b) / 255
            <= a by {
            assert((a * b) / 255 <= a) by (nonlinear_arith)
                requires
                    0 <= a <= 255,
                    0 <= b <= 255,
            ;
        }
    }
    let r = [scale_channel(base[0], tint[0]), scale_channel(base[1], tint[1]), scale_channel(base[2], tint[2])];
    assert forall|c: int| 0 <= c < 3 implies r[c] as int == (base[c] as int * tint[c] as int) / 255 by {
        if c == 0 {
        } else if c == 1 {
        } else {
        }
    }
    r
}

/// The material a face is drawn with, as a position among the part's face
/// names (listed in the order the part's face map yields them): the face's
/// own entry; else, for a face other than "All", the "All" entry; else the
/// first entry; none for a part without faces.
pub open spec fn face_slot(keys: Seq<Seq<char>>, face: Seq<char>) -> Option<int> {
    if exists|i: int| 0 <= i < keys.len() && keys[i] == face {
        Some(choose|i: int| 0 <= i < keys.len() && keys[i] == face)
    } else if face != "All"@ && exists|i: int| 0 <= i < keys.len() && keys[i] == "All"@ {
        Some(choose|i: int| 0 <= i < keys.len() && keys[i] == "All"@)
    } else if keys.len() > 0 {
        Some(0)
    } else {
        None
    }
}

/// Names of a face map never repeat.
pub open spec fn distinct_names(keys: Seq<Seq<char>>) -> bool {
    forall|i: int, j: int| 0 <= i < j < keys.len() ==> keys[i] != keys[j]
}

fn find_name(keys: &Vec<String>, name: &str) -> (r: Option<usize>)
    ensures
        r matches Some(i) ==> i < keys@.len() && keys@[i as int]@ == name@,
        r is None ==> forall|i: int| 0 <= i < keys@.len() ==> keys@[i]@ != name@,
{
    let n = keys.len();
    for i in 0..n
        invariant
            n == keys.len(),
            forall|k: int| 0 <= k < i ==> keys@[k]@ != name@,
    {
        if str_eq(keys[i].as_str(), name) {
            return Some(i);
        }
    }
    None
}

/// Which of a part's face materials draws `face`; `keys` are the names of
/// the part's face materials in the order its face map yields them.
pub fn resolve_face_slot(keys: &Vec<String>, face: &str) -> (r: Option<usize>)
    requires
        distinct_names(keys@.map_values(|k: String| k@)),
    ensures
        r matches Some(i) ==> face_slot(keys@.map_values(|k: String| k@), face@) == Some(i as int),
        r is None ==> face_slot(keys@.map_values(|k: String| k@), face@) is None,
{
    let ghost names = keys@.map_values(|k: String| k@);
    proof {
        reveal_strlit("All");
    }
    if let Some(i) = find_name(keys, face) {
        assert(names[i as int] == face@);
        return Some(i);
    }
    assert(!exists|i: int| 0 <= i < names.len() && names[i] == face@) by {
        assert forall|i: int| 0 <= i < names.len() implies names[i] != face@ by {
            assert(names[i] == keys@[i]@);
        }
    }
    if !str_eq(face, "All") {
        if let Some(i) = find_name(keys, "All") {
            assert(names[i as int] == "All"@);
            return Some(i);
        }
        assert(!exists|i: int| 0 <= i < names.len() && names[i] == "All"@) by {
            assert forall|i: int| 0 <= i < names.len() implies names[i] != "All"@ by {
                assert(names[i] == keys@[i]@);
            }
        }
    }
    if keys.len() > 0 {
        Some(0)
    } else {
        None
    }
}

// ---------------------------------------------------------------------------
// Triangulation of polygons
/// A fan of triangles from the first corner of an `n`-gon: (0, k+1, k+2)
/// for each k.
pub open spec fn fan(n: nat) -> Seq<usize> {
    Seq::new(
        (3 * (n - 2)) as nat,
        |j: int|
            if j % 3 == 0 {
                0usize
            } else if j % 3 == 1 {
                (j / 3 + 1) as usize
            } else {
                (j / 3 + 2) as usize
            },
    )
}

/// The corner indices of the triangles that cover an `n`-gon: none below 3
/// corners, the polygon itself for 3, else the ear-clipped triangles found
/// by the triangulator, or a fan from the first corner where it found none
/// (or failed).
pub open spec fn triangle_indices(n: nat, clipped: Option<Seq<usize>>) -> Seq<usize> {
    if n < 3 {
        Seq::empty()
    } else if n == 3 {
        seq![0usize, 1usize, 2usize]
    } else {
        match clipped {
            Some(t) => if t.len() > 0 {
                t
            } else {
                fan(n)
            },
            None => fan(n),
        }
    }
}

/// The triangles that cover a polygon of `n` corners, given what the ear
/// clipper returned for it (`None` where it failed).
pub fn triangulate_indices(n: usize, clipped: Option<Vec<usize>>) -> (r: Vec<usize>)
    requires
        3 * n <= usize::MAX,
    ensures
        r@ == triangle_indices(
            n as nat,
            match clipped {
                Some(t) => Some(t@),
                None => None,
            },
        ),
{
    if n < 3 {
        return Vec::new();
    }
    if n == 3 {
        let r = vec![0, 1, 2];
        assert(r@ =~= seq![0usize, 1usize, 2usize]);
        return r;
    }
    if let Some(t) = clipped {
        if t.len() > 0 {
            return t;
        }
    }
    let mut fallback: Vec<usize> = Vec::new();
    let mut i: usize = 1;
    while i < n - 1
        invariant
            1 <= i <= n - 1,
            n > 3,
            3 * n <= usize::MAX,
            fallback@ =~= fan(n as nat).take(3 * (i - 1)),
        decreases n - i,
    {
        fallback.push(0);
        fallback.push(i);
        fallback.push(i + 1);
        proof {
            let f = fan(n as nat);
            assert((3 * (i - 1)) % 3 == 0 && (3 * (i - 1)) / 3 == i - 1) by (nonlinear_arith)
                requires
                    i >= 1,
            ;
            assert((3 * (i - 1) + 1) % 3 == 1 && (3 * (i - 1) + 1) / 3 == i - 1) by (nonlinear_arith)
                requires
                    i >= 1,
            ;
            assert((3 * (i - 1) + 2) % 3 == 2 && (3 * (i - 1) + 2) / 3 == i - 1) by (nonlinear_arith)
                requires
                    i >= 1,
            ;
            assert(f.take(3 * i) =~= f.take(3 * (i - 1)).push(f[3 * (i - 1)]).push(
                f[3 * (i - 1) + 1],
            ).push(f[3 * (i - 1) + 2]));
        }
        i = i + 1;
    }
    assert(fan(n as nat).take(3 * (n - 2)) =~= fan(n as nat));
    fallback
}

} // verus!
