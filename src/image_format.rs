use vstd::prelude::*;

verus! {

/// Channel layout of decoded texture data.
#[derive(Clone, Copy, Debug, PartialEq, Eq, Structural)]
pub enum PixelFormat {
    Rgba,
    Rgb,
}

/// The part of `path` after its last `.`; all of `path` when it has none.
pub open spec fn extension(path: Seq<u8>) -> Seq<u8>
    decreases path.len(),
{
    if path.len() == 0 {
        path
    } else if path.last() == 46u8 {
        Seq::empty()
    } else {
        extension(path.drop_last()).push(path.last())
    }
}

/// `pattern` occurs in `s` as a contiguous run.
pub open spec fn contains(s: Seq<u8>, pattern: Seq<u8>) -> bool {
    exists|i: int| 0 <= i && i + pattern.len() <= s.len() && #[trigger] s.subrange(i, i + pattern.len()) == pattern
}

/// The pixel format a texture file is decoded to, chosen by the extension:
/// one that contains `png` gives RGBA, one that contains `jpg` or `jpeg`
/// gives RGB, any other none.
pub open spec fn format_for(path: Seq<u8>) -> Option<PixelFormat> {
    let ext = extension(path);
    if contains(ext, seq![112u8, 110u8, 103u8]) {
        Some(PixelFormat::Rgba)
    } else if contains(ext, seq![106u8, 112u8, 103u8]) || contains(ext, seq![106u8, 112u8, 101u8, 103u8]) {
        Some(PixelFormat::Rgb)
    } else {
        None
    }
}

proof fn lemma_extension_split(path: Seq<u8>, k: int)
    requires
        0 <= k <= path.len(),
        forall|j: int| k <= j < path.len() ==> path[j] != 46u8,
    ensures
        extension(path) == extension(path.subrange(0, k)) + path.subrange(k, path.len() as int),
    decreases path.len(),
{
    if k < path.len() {
        let shorter = path.drop_last();
        lemma_extension_split(shorter, k);
        assert(shorter.subrange(0, k) == path.subrange(0, k));
        assert(path.subrange(k, path.len() as int) == shorter.subrange(k, shorter.len() as int).push(path.last()));
    } else {
        assert(path.subrange(0, k) == path);
    }
}

/// Whether `pattern` occurs in `s` from position `from` on.
fn occurs_from(s: &[u8], from: usize, pattern: &[u8]) -> (r: bool)
    requires
        from <= s@.len(),
    ensures
        r == contains(s@.subrange(from as int, s@.len() as int), pattern@),
{
    let ghost tail = s@.subrange(from as int, s@.len() as int);
    if pattern.len() > s.len() - from {
        return false;
    }
    let n = s.len();
    let last = n - pattern.len();
    let mut i: usize = from;
    while i <= last
        invariant
            n == s@.len(),
            from <= s@.len(),
            tail == s@.subrange(from as int, s@.len() as int),
            last == s@.len() - pattern@.len(),
            from <= i <= last + 1,
            forall|p: int| 0 <= p < i - from ==> #[trigger] tail.subrange(p, p + pattern@.len()) != pattern@,
        decreases last + 1 - i,
    {
        let mut j: usize = 0;
        let mut same = true;
        while j < pattern.len()
            invariant
                n == s@.len(),
                i <= last,
                last == s@.len() - pattern@.len(),
                j <= pattern@.len(),
                same == (forall|q: int| 0 <= q < j ==> s@[i + q] == pattern@[q]),
            decreases pattern@.len() - j,
        {
            if s[i + j] != pattern[j] {
                same = false;
            }
            j += 1;
        }
        let ghost window = tail.subrange(i - from, i - from + pattern@.len());
        assert(forall|q: int| 0 <= q < pattern@.len() ==> window[q] == s@[i + q]);
        if same {
            assert(window =~= pattern@);
            return true;
        }
        assert(window != pattern@) by {
            let q = choose|q: int| 0 <= q < pattern@.len() && s@[i + q] != pattern@[q];
            assert(window[q] != pattern@[q]);
        }
        i += 1;
    }
    false
}

/// The pixel format for the texture file at `path`, from its extension.
pub fn pixel_format_for(path: &[u8]) -> (r: Option<PixelFormat>)
    ensures
        r == format_for(path@),
{
    let mut k: usize = path.len();
    while k > 0 && path[k - 1] != 46u8
        invariant
            k <= path@.len(),
            forall|j: int| k <= j < path@.len() ==> path@[j] != 46u8,
        decreases k,
    {
        k -= 1;
    }
    proof {
        lemma_extension_split(path@, k as int);
        if k > 0 {
            assert(path@.subrange(0, k as int).last() == 46u8);
            assert(extension(path@.subrange(0, k as int)) == Seq::<u8>::empty());
        } else {
            assert(extension(path@.subrange(0, 0)) == Seq::<u8>::empty());
        }
        assert(extension(path@) =~= path@.subrange(k as int, path@.len() as int));
    }
    let png: [u8; 3] = [112u8, 110u8, 103u8];
    let jpg: [u8; 3] = [106u8, 112u8, 103u8];
    let jpeg: [u8; 4] = [106u8, 112u8, 101u8, 103u8];
    assert(png@ =~= seq![112u8, 110u8, 103u8]);
    assert(jpg@ =~= seq![106u8, 112u8, 103u8]);
    assert(jpeg@ =~= seq![106u8, 112u8, 101u8, 103u8]);
    if occurs_from(path, k, &png) {
        Some(PixelFormat::Rgba)
    } else if occurs_from(path, k, &jpg) || occurs_from(path, k, &jpeg) {
        Some(PixelFormat::Rgb)
    } else {
        None
    }
}

} // verus!
