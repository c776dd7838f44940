//! Square row-major fields of samples and their boundary-safe shifts.
use vstd::prelude::*;

verus! {

/// Failures of field construction and normalisation.
#[derive(Debug, Clone, Copy, PartialEq, Eq, Structural)]
pub enum FieldError {
    /// The sample buffer does not hold `width * width` samples.
    InvalidDimension,
    /// The samples span a range too small to normalise.
    DegenerateRange,
}

/// A `width` by `width` field; pixel `(x, y)` is sample `y * width + x`.
pub struct Field<T> {
    pub flattened_field: Vec<T>,
    pub width: usize,
}

/// Index that pixel `i` of a `w` by `w` field reads after a shift by `(dx, dy)`: the
/// pixel `(x - dx, y - dy)` when it lies in the field, else `i` itself.
pub open spec fn shift_source(w: int, i: int, dx: int, dy: int) -> int {
    let (x, y) = (i % w, i / w);
    let (sx, sy) = (x - dx, y - dy);
    if 0 <= sx < w && 0 <= sy < w {
        sy * w + sx
    } else {
        i
    }
}

/// Whether `r` is `f` shifted by `(dx, dy)`, as `Field::shift` returns it.
pub open spec fn is_shift_of<T>(r: Seq<T>, f: Seq<T>, w: int, dx: int, dy: int) -> bool {
    &&& r.len() == f.len()
    &&& forall|i: int| 0 <= i < f.len() ==> #[trigger] r[i] == f[shift_source(w, i, dx, dy)]
}

/// Every pixel of a shift reads a pixel of the field, so shifting a constant field, in
/// any direction and by any amount, gives the same constant field.
pub proof fn lemma_shift_of_constant<T>(r: Seq<T>, f: Seq<T>, w: int, dx: int, dy: int, v: T)
    requires
        w >= 0,
        f.len() == w * w,
        is_shift_of(r, f, w, dx, dy),
        forall|i: int| 0 <= i < f.len() ==> #[trigger] f[i] == v,
    ensures
        forall|i: int| 0 <= i < r.len() ==> #[trigger] r[i] == v,
{
    assert forall|i: int| 0 <= i < r.len() implies #[trigger] r[i] == v by {
        let j = shift_source(w, i, dx, dy);
        let (x, y) = (i % w, i / w);
        if 0 <= x - dx < w && 0 <= y - dy < w {
            assert(0 <= j < w * w) by (nonlinear_arith)
                requires j == (y - dy) * w + (x - dx), 0 <= x - dx < w, 0 <= y - dy < w;
        }
        assert(f[j] == v);
    }
}

impl<T: Copy> Field<T> {
    /// The buffer holds exactly `width * width` samples.
    pub open spec fn wf(&self) -> bool {
        self.flattened_field@.len() == self.width * self.width
    }

    /// A field over `samples`, which must hold `width * width` of them.
    pub fn new(samples: Vec<T>, width: usize) -> (r: Result<Field<T>, FieldError>)
        ensures
            samples@.len() == width * width <==> r is Ok,
            r matches Ok(f) ==> f.wf() && f.width == width && f.flattened_field@ == samples@,
            r matches Err(e) ==> e == FieldError::InvalidDimension,
    {
        let len = samples.len();
        let ok = match width.checked_mul(width) {
            Some(n) => n == samples.len(),
            None => false,
        };
        if ok {
            Ok(Field { flattened_field: samples, width })
        } else {
            proof {
                assert(len == samples@.len());
            }
            Err(FieldError::InvalidDimension)
        }
    }

    /// A `width` by `width` field with every sample equal to `value`.
    pub fn filled(value: T, width: usize) -> (f: Field<T>)
        requires
            width * width <= usize::MAX,
        ensures
            f.wf(),
            f.width == width,
            forall|i: int| 0 <= i < width * width ==> #[trigger] f.flattened_field@[i] == value,
    {
        let n: usize = width * width;
        let mut samples: Vec<T> = Vec::with_capacity(n);
        let mut i: usize = 0;
        while i < n
            invariant
                i <= n,
                n == width * width,
                samples@.len() == i,
                forall|j: int| 0 <= j < i ==> #[trigger] samples@[j] == value,
            decreases n - i,
        {
            samples.push(value);
            i += 1;
        }
        Field { flattened_field: samples, width }
    }

    /// The sample at pixel `(x, y)`.
    pub fn get(&self, x: usize, y: usize) -> (v: T)
        requires
            self.wf(),
            x < self.width,
            y < self.width,
        ensures
            v == self.flattened_field@[y * self.width + x],
    {
        let n = self.flattened_field.len();
        proof {
            assert(y * self.width + x < self.width * self.width) by (nonlinear_arith)
                requires x < self.width, y < self.width;
        }
        self.flattened_field[y * self.width + x]
    }

    /// A new field whose pixel `(x, y)` holds this field's pixel `(x - dx, y - dy)`
    /// when that pixel exists, and keeps its own value otherwise.
    pub fn shift(&self, dx: isize, dy: isize) -> (r: Field<T>)
        requires
            self.wf(),
        ensures
            r.wf(),
            r.width == self.width,
            is_shift_of(r.flattened_field@, self.flattened_field@, self.width as int, dx as int, dy as int),
    {
        let w = self.width;
        let n = self.flattened_field.len();
        let mut shifted: Vec<T> = Vec::with_capacity(n);
        let mut i: usize = 0;
        while i < n
            invariant
                self.wf(),
                w == self.width,
                n == w * w,
                i <= n,
                shifted@.len() == i,
                forall|j: int|
                    0 <= j < i ==> #[trigger] shifted@[j] == self.flattened_field@[shift_source(
                        w as int,
                        j,
                        dx as int,
                        dy as int,
                    )],
            decreases n - i,
        {
            proof {
                assert(w > 0) by (nonlinear_arith)
                    requires i < w * w;
            }
            let x: usize = i % w;
            let y: usize = i / w;
            let sx: i128 = x as i128 - dx as i128;
            let sy: i128 = y as i128 - dy as i128;
            proof {
                assert(y < w) by (nonlinear_arith)
                    requires y == i / w, i < w * w, w > 0;
            }
            let v = if 0 <= sx && sx < w as i128 && 0 <= sy && sy < w as i128 {
                proof {
                    assert(sy * w + sx < w * w) by (nonlinear_arith)
                        requires 0 <= sx < w, 0 <= sy < w;
                }
                self.flattened_field[(sy as usize) * w + sx as usize]
            } else {
                self.flattened_field[i]
            };
            shifted.push(v);
            i += 1;
        }
        Field { flattened_field: shifted, width: w }
    }
}

} // verus!
