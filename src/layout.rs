use vstd::prelude::*;

verus! {

/// One vertex attribute inside an interleaved vertex record: how many
/// components it has, how many bytes it takes, and whether its values are
/// normalized when read.
#[derive(Clone, Copy, Debug, PartialEq, Eq, Structural)]
pub struct DataSpecification {
    pub stride: u32,
    pub components: i32,
    pub normalize: u8,
}

/// The attributes of an interleaved vertex record, in order.
#[derive(Clone, Debug)]
pub struct DataLayout {
    specs: Vec<DataSpecification>,
}

impl View for DataLayout {
    type V = Seq<DataSpecification>;

    closed spec fn view(&self) -> Seq<DataSpecification> {
        self.specs@
    }
}

/// The attribute boundaries: `0`, each cutoff, then the record width.
pub open spec fn boundaries(cutoffs: Seq<usize>, width: int) -> Seq<int> {
    seq![0int] + cutoffs.map_values(|c: usize| c as int) + seq![width]
}

/// The attribute between boundaries `i` and `i + 1` is non-negative and its
/// byte size fits in a `u32`.
pub open spec fn segment_fits(b: Seq<int>, i: int) -> bool {
    b[i] <= b[i + 1] && 4 * (b[i + 1] - b[i]) <= u32::MAX
}

/// Every attribute between consecutive boundaries fits.
pub open spec fn segments_fit(b: Seq<int>) -> bool {
    forall|i: int| 0 <= i < b.len() - 1 ==> #[trigger] segment_fits(b, i)
}

/// An attribute of `components` 4-byte floats.
pub open spec fn float_attribute(components: int, normalize: u8) -> DataSpecification {
    DataSpecification { stride: (4 * components) as u32, components: components as i32, normalize }
}

/// Sum of the strides of the first `n` attributes.
pub open spec fn stride_sum(specs: Seq<DataSpecification>, n: nat) -> int
    decreases n,
{
    if n == 0 || n > specs.len() {
        0
    } else {
        stride_sum(specs, (n - 1) as nat) + specs[n - 1].stride
    }
}

impl Default for DataLayout {
    fn default() -> (r: DataLayout)
        ensures
            r@ == Seq::<DataSpecification>::empty(),
    {
        DataLayout { specs: Vec::new() }
    }
}

impl DataLayout {
    /// Appends one attribute.
    pub fn push(self, spec: DataSpecification) -> (r: DataLayout)
        ensures
            r@ == self@.push(spec),
    {
        let mut specs = self.specs;
        specs.push(spec);
        DataLayout { specs }
    }

    /// The attributes, in order.
    pub fn specs(&self) -> (r: &Vec<DataSpecification>)
        ensures
            r@ == self@,
    {
        &self.specs
    }

    /// Splits records of `slice_len / data_points` floats into attributes at
    /// the given cutoffs: attribute `i` spans from boundary `i` to boundary
    /// `i + 1`, where the boundaries are `0`, the cutoffs, and the record
    /// width.
    pub fn infer_from_len(slice_len: usize, cutoffs: &[usize], normalize: u8, data_points: usize) -> (r: DataLayout)
        requires
            data_points > 0,
            slice_len % data_points == 0,
            segments_fit(boundaries(cutoffs@, (slice_len / data_points) as int)),
        ensures
            r@.len() == cutoffs@.len() + 1,
            forall|i: int| 0 <= i < r@.len() ==> #[trigger] r@[i] == float_attribute(
                boundaries(cutoffs@, (slice_len / data_points) as int)[i + 1]
                    - boundaries(cutoffs@, (slice_len / data_points) as int)[i],
                normalize,
            ),
    {
        let cols = slice_len / data_points;
        let ghost b = boundaries(cutoffs@, cols as int);
        let mut layout = DataLayout::default();
        let mut last_cutoff: usize = 0;
        let mut i: usize = 0;
        while i < cutoffs.len()
            invariant
                b == boundaries(cutoffs@, cols as int),
                cols == slice_len / data_points,
                i <= cutoffs@.len(),
                last_cutoff == b[i as int],
                layout@.len() == i,
                segments_fit(b),
                forall|j: int| 0 <= j < i ==> #[trigger] layout@[j] == float_attribute(b[j + 1] - b[j], normalize),
            decreases cutoffs@.len() - i,
        {
            let c = cutoffs[i];
            assert(b[i + 1] == c);
            assert(segment_fits(b, i as int));
            let components = (c - last_cutoff) as u32;
            layout = layout.push(DataSpecification { stride: components * 4, components: components as i32, normalize });
            last_cutoff = c;
            i += 1;
        }
        assert(b[i as int + 1] == cols);
        assert(segment_fits(b, i as int));
        let components = (cols - last_cutoff) as u32;
        layout = layout.push(DataSpecification { stride: components * 4, components: components as i32, normalize });
        layout
    }

    /// The total stride of a record and each attribute's byte offset in it
    /// (the sum of the strides before it); `None` when the total stride does
    /// not fit in a `u32`.
    pub fn attribute_offsets(&self) -> (r: Option<(u32, Vec<u32>)>)
        ensures
            r is Some <==> stride_sum(self@, self@.len()) <= u32::MAX,
            r matches Some((total, offsets)) ==> total == stride_sum(self@, self@.len())
                && offsets@.len() == self@.len()
                && forall|i: int| 0 <= i < offsets@.len() ==> #[trigger] offsets@[i] == stride_sum(self@, i as nat),
    {
        let mut offsets: Vec<u32> = Vec::new();
        let mut current: u64 = 0;
        let mut i: usize = 0;
        while i < self.specs.len()
            invariant
                i <= self@.len(),
                current == stride_sum(self@, i as nat),
                current <= u32::MAX,
                offsets@.len() == i,
                forall|j: int| 0 <= j < i ==> #[trigger] offsets@[j] == stride_sum(self@, j as nat),
            decreases self@.len() - i,
        {
            offsets.push(current as u32);
            let next = current + self.specs[i].stride as u64;
            if next > u32::MAX as u64 {
                proof {
                    lemma_stride_sum_monotone(self@, (i + 1) as nat, self@.len());
                }
                return None;
            }
            current = next;
            i += 1;
        }
        Some((current as u32, offsets))
    }
}

proof fn lemma_stride_sum_monotone(specs: Seq<DataSpecification>, m: nat, n: nat)
    requires
        m <= n <= specs.len(),
    ensures
        stride_sum(specs, m) <= stride_sum(specs, n),
    decreases n - m,
{
    if m < n {
        lemma_stride_sum_monotone(specs, m, (n - 1) as nat);
    }
}

} // verus!
