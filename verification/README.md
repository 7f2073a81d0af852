# fixed-dsp

Fixed-point (Q15 / Q31) digital signal processing kernels whose behaviour is
close to CMSIS-DSP, written in Verus: every public function carries a contract
that states its result exactly, and Verus proves the code against it.

## Layout

- `src/qmath.rs`: saturation, wrapping and shift helpers with their lemmas.
- `src/basic`: cosine, product, dot product, offset, scale, shift, logarithm,
  square root and division of samples and vectors.
- `src/statistics`: maximum magnitude of a vector prefix.
- `src/complex`: magnitudes of interleaved complex samples.
- `src/matrix`: row-major `Matrix<T>` with sum, product and matrix-vector product.
- `src/transform`: bit reversal, radix-2 and radix-4 butterflies, complex and
  real FFTs, and MFCC.
- `tests`: concrete scenarios run against the compiled library.

## Tables

The kernels that rely on precomputed tables take them as arguments: the sine
table of `cos_i16` / `cos_i32` (513 entries), the initial guesses of
`sqrt_i16` / `sqrt_i32`, the twiddle factors of the FFTs, and the split
coefficients of the real FFTs. The contracts are stated for whatever table is
passed; the tests build tables from `f64` functions.

## Memory

Apart from `Matrix<T>`, which owns its entries in a `Vec`, the kernels do not
allocate: the real FFTs use a fixed-capacity scratch array on the stack, and
the MFCCs use the caller's `tmp` buffer as scratch (the Q15 MFCC packs its
spectrum there, two samples per 32-bit word) plus, for the Q15 spectrum, a
fixed-capacity array.
