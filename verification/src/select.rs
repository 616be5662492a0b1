use vstd::prelude::*;

verus! {

/// The byte sequence s ends with the suffix suf.
pub open spec fn suffix_of(s: Seq<u8>, suf: Seq<u8>) -> bool {
    s.len() >= suf.len() && s.subrange(s.len() - suf.len(), s.len() as int) == suf
}

/// ASCII bytes of ".jpg".
pub open spec fn jpg_suffix() -> Seq<u8> {
    seq![46u8, 106u8, 112u8, 103u8]
}

/// ASCII bytes of ".jpeg".
pub open spec fn jpeg_suffix() -> Seq<u8> {
    seq![46u8, 106u8, 112u8, 101u8, 103u8]
}

/// ASCII bytes of ".png".
pub open spec fn png_suffix() -> Seq<u8> {
    seq![46u8, 112u8, 110u8, 103u8]
}

/// ASCII bytes of ".bmp".
pub open spec fn bmp_suffix() -> Seq<u8> {
    seq![46u8, 98u8, 109u8, 112u8]
}

/// A file name the random route may serve: at least one byte of name
/// followed by a dot and one of the image extensions jpg, jpeg, png or bmp,
/// lower case. A bare dotfile such as a name that is only the dot and the
/// extension has no extension and does not count.
pub open spec fn is_image_name(s: Seq<u8>) -> bool {
    ||| (s.len() > jpg_suffix().len() && suffix_of(s, jpg_suffix()))
    ||| (s.len() > jpeg_suffix().len() && suffix_of(s, jpeg_suffix()))
    ||| (s.len() > png_suffix().len() && suffix_of(s, png_suffix()))
    ||| (s.len() > bmp_suffix().len() && suffix_of(s, bmp_suffix()))
}

/// Whether name ends with the bytes of suf.
fn suffix_matches(name: &Vec<u8>, suf: &Vec<u8>) -> (r: bool)
    ensures
        r == suffix_of(name@, suf@),
{
    let n = name.len();
    let m = suf.len();
    if n < m {
        return false;
    }
    let mut i: usize = 0;
    while i < m
        invariant
            i <= m,
            m <= n,
            n == name@.len(),
            m == suf@.len(),
            forall|j: int| 0 <= j < i ==> name@[n - m + j] == suf@[j],
        decreases m - i,
    {
        if name[n - m + i] != suf[i] {
            proof {
                assert(name@.subrange(n - m, n as int)[i as int] == name@[n - m + i]);
            }
            return false;
        }
        i = i + 1;
    }
    proof {
        assert(name@.subrange(n - m, n as int) =~= suf@);
    }
    true
}

/// Whether the file name carries one of the served image extensions.
pub fn has_image_extension(name: &Vec<u8>) -> (r: bool)
    ensures
        r == is_image_name(name@),
{
    let jpg: Vec<u8> = vec![46u8, 106u8, 112u8, 103u8];
    let jpeg: Vec<u8> = vec![46u8, 106u8, 112u8, 101u8, 103u8];
    let png: Vec<u8> = vec![46u8, 112u8, 110u8, 103u8];
    let bmp: Vec<u8> = vec![46u8, 98u8, 109u8, 112u8];
    proof {
        assert(jpg@ =~= jpg_suffix());
        assert(jpeg@ =~= jpeg_suffix());
        assert(png@ =~= png_suffix());
        assert(bmp@ =~= bmp_suffix());
    }
    (name.len() > jpg.len() && suffix_matches(name, &jpg)) || (name.len() > jpeg.len()
        && suffix_matches(name, &jpeg)) || (name.len() > png.len() && suffix_matches(name, &png))
        || (name.len() > bmp.len() && suffix_matches(name, &bmp))
}

/// The indices below n of names that carry an image extension, in order.
pub open spec fn eligible_upto(names: Seq<Vec<u8>>, n: int) -> Seq<int>
    decreases n,
{
    if n <= 0 {
        Seq::empty()
    } else {
        let rest = eligible_upto(names, n - 1);
        if is_image_name(names[n - 1]@) {
            rest.push(n - 1)
        } else {
            rest
        }
    }
}

/// The indices of all names that carry an image extension, in order.
pub open spec fn eligible_indices(names: Seq<Vec<u8>>) -> Seq<int> {
    eligible_upto(names, names.len() as int)
}

/// The number of names that carry an image extension: the range a uniform
/// pick for choose_image is drawn over.
pub fn count_eligible(names: &Vec<Vec<u8>>) -> (r: usize)
    ensures
        r == eligible_indices(names@).len(),
{
    let mut count: usize = 0;
    let mut i: usize = 0;
    while i < names.len()
        invariant
            i <= names@.len(),
            count <= i,
            count == eligible_upto(names@, i as int).len(),
        decreases names@.len() - i,
    {
        if has_image_extension(&names[i]) {
            count = count + 1;
        }
        i = i + 1;
    }
    count
}

/// Picks the file the random route serves: among the names that carry an
/// image extension, the one whose rank is pick modulo their count; None when
/// no name is eligible, which the caller reports as not found.
pub fn choose_image(names: &Vec<Vec<u8>>, pick: usize) -> (r: Option<usize>)
    ensures
        (r is None) <==> eligible_indices(names@).len() == 0,
        r matches Some(i) ==> eligible_indices(names@).len() > 0 && i == eligible_indices(
            names@,
        )[(pick as int) % (eligible_indices(names@).len() as int)],
{
    let mut el: Vec<usize> = Vec::new();
    let mut i: usize = 0;
    while i < names.len()
        invariant
            i <= names@.len(),
            el@.map_values(|u: usize| u as int) == eligible_upto(names@, i as int),
        decreases names@.len() - i,
    {
        let ghost prev = el@;
        if has_image_extension(&names[i]) {
            el.push(i);
        }
        proof {
            assert(el@.map_values(|u: usize| u as int) =~= eligible_upto(names@, i + 1));
        }
        i = i + 1;
    }
    if el.len() == 0 {
        return None;
    }
    let idx = pick % el.len();
    proof {
        assert(el@.map_values(|u: usize| u as int)[idx as int] == el@[idx as int] as int);
    }
    Some(el[idx])
}

} // verus!
