use vstd::prelude::*;

verus! {

/// Stacks the pixel data of the six skybox faces (right, left, top, bottom,
/// front, back) into the data of one six-layer image, face after face.
pub fn stack_cubemap_faces(faces: &Vec<Vec<u8>>) -> (data: Vec<u8>)
    ensures
        data@ == faces@.map_values(|f: Vec<u8>| f@).flatten(),
{
    let ghost fv = faces@.map_values(|f: Vec<u8>| f@);
    let mut data: Vec<u8> = Vec::new();
    let mut k: usize = 0;
    assert(fv.subrange(0, 0) =~= Seq::<Seq<u8>>::empty());
    while k < faces.len()
        invariant
            fv == faces@.map_values(|f: Vec<u8>| f@),
            k <= faces.len(),
            data@ == fv.subrange(0, k as int).flatten(),
        decreases faces.len() - k,
    {
        let face = &faces[k];
        let ghost before = data@;
        let mut j: usize = 0;
        while j < face.len()
            invariant
                j <= face.len(),
                data@ == before + face@.subrange(0, j as int),
            decreases face.len() - j,
        {
            data.push(face[j]);
            assert(face@.subrange(0, j + 1) =~= face@.subrange(0, j as int).push(face@[j as int]));
            j = j + 1;
        }
        assert(face@.subrange(0, face@.len() as int) =~= face@);
        proof {
            fv.subrange(0, k as int).lemma_flatten_push(fv[k as int]);
            assert(fv.subrange(0, k + 1) =~= fv.subrange(0, k as int).push(fv[k as int]));
        }
        k = k + 1;
    }
    assert(fv.subrange(0, fv.len() as int) =~= fv);
    data
}

} // verus!
