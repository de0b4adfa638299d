//! The bit-matrix hash: its storage, its text form and its distance.

use crate::bits::{bit_at, bit_count, pack, stored_bits, PackedBits};
use crate::codec::{
    decoded, digit_count, digit_value, encoded, hex_digit, hex_value, lead, padded, parse_digit,
    text_bit, DecodeError,
};
use vstd::prelude::*;
use vstd::std_specs::cmp::PartialEqSpecImpl;
use vstd::std_specs::iter::IteratorSpec;
use vstd::string::StringSliceAdditionalSpecFns;

verus! {

/// What a hash stands for: a shape and its bits, row after row.
pub struct BitMatrix {
    /// Number of columns.
    pub width: nat,
    /// Number of rows.
    pub height: nat,
    /// The bits in row-major order.
    pub bits: Seq<bool>,
}

impl BitMatrix {
    /// Neither side is zero and there is one bit for every cell.
    pub open spec fn well_formed(self) -> bool {
        &&& self.width > 0
        &&& self.height > 0
        &&& self.bits.len() == self.width * self.height
    }

    /// The bit in row `row` and column `column`.
    pub open spec fn at(self, row: int, column: int) -> bool {
        self.bits[row * self.width + column]
    }

    /// The Hamming distance to `other`, which hashes of one shape have.
    pub open spec fn distance(self, other: BitMatrix) -> Option<nat> {
        if self.width == other.width && self.height == other.height {
            Some(hamming(self.bits, other.bits))
        } else {
            None
        }
    }
}

/// The largest number of bits that a hash can hold.
pub open spec fn max_bits() -> nat {
    (usize::MAX / 8) as nat
}

/// Whether a hash of `width` columns and `height` rows can be held.
pub fn can_hold(width: u32, height: u32) -> (fits: bool)
    ensures
        fits == (width * height <= max_bits()),
{
    assert(width * height <= u32::MAX * u32::MAX) by (nonlinear_arith);
    (width as u64) * (height as u64) <= (usize::MAX / 8) as u64
}

/// The rows of a matrix given as nested vectors.
pub open spec fn rows_of(matrix: Seq<Vec<bool>>) -> Seq<Seq<bool>> {
    Seq::new(matrix.len(), |r: int| matrix[r]@)
}

/// There is a row, the first row has a cell, and all rows are as long as
/// the first.
pub open spec fn rectangular(rows: Seq<Seq<bool>>) -> bool {
    &&& rows.len() > 0
    &&& rows[0].len() > 0
    &&& forall|r: int| 0 <= r < rows.len() ==> (#[trigger] rows[r]).len() == rows[0].len()
}

/// The cells of a rectangular matrix in row-major order.
pub open spec fn row_major(rows: Seq<Seq<bool>>) -> Seq<bool> {
    let width = rows[0].len() as int;
    Seq::new(rows.len() * rows[0].len(), |i: int| rows[i / width][i % width])
}

/// Number of places in which two bit sequences of one length differ.
pub open spec fn hamming(a: Seq<bool>, b: Seq<bool>) -> nat
    decreases a.len(),
{
    if a.len() == 0 {
        0
    } else {
        hamming(a.drop_last(), b.drop_last()) + if a.last() != b.last() {
            1nat
        } else {
            0nat
        }
    }
}

/// The message of a distance asked between hashes of different shapes.
pub open spec fn shape_mismatch_text() -> Seq<char> {
    "Cannot compute distance of hashes with different sizes"@
}

/// A perceptual hash: a matrix of bits with a fixed shape.
#[derive(Debug)]
pub struct ImageHash {
    data: PackedBits,
    width: u32,
    height: u32,
}

impl View for ImageHash {
    type V = BitMatrix;

    closed spec fn view(&self) -> BitMatrix {
        BitMatrix {
            width: self.width as nat,
            height: self.height as nat,
            bits: stored_bits(self.data),
        }
    }
}

impl ImageHash {
    #[verifier::type_invariant]
    spec fn shaped(self) -> bool {
        self@.well_formed() && self@.bits.len() <= max_bits()
    }

    /// Makes a hash from a matrix given as rows of cells.
    pub fn new(matrix: Vec<Vec<bool>>) -> (hash: ImageHash)
        requires
            rectangular(rows_of(matrix@)),
            matrix@.len() <= u32::MAX,
            matrix@[0]@.len() <= u32::MAX,
            matrix@.len() * matrix@[0]@.len() <= max_bits(),
        ensures
            hash@.well_formed(),
            hash@.height == matrix@.len(),
            hash@.width == matrix@[0]@.len(),
            hash@.bits == row_major(rows_of(matrix@)),
    {
        let height = matrix.len();
        let width = matrix[0].len();
        let ghost rows = rows_of(matrix@);
        let mut bits: Vec<bool> = Vec::new();
        let mut r: usize = 0;
        while r < height
            invariant
                rows == rows_of(matrix@),
                rectangular(rows),
                height == rows.len(),
                width == rows[0].len(),
                r <= height,
                bits@.len() == r * width,
                forall|i: int|
                    0 <= i < bits@.len() ==> bits@[i] == rows[i / (width as int)][i % (width
                        as int)],
            decreases height - r,
        {
            let row = &matrix[r];
            assert(row@ == rows[r as int]);
            let mut c: usize = 0;
            while c < width
                invariant
                    rows == rows_of(matrix@),
                    rectangular(rows),
                    height == rows.len(),
                    width == rows[0].len(),
                    r < height,
                    row@ == rows[r as int],
                    c <= width,
                    bits@.len() == r * width + c,
                    forall|i: int|
                        0 <= i < bits@.len() ==> bits@[i] == rows[i / (width as int)][i % (width
                            as int)],
                decreases width - c,
            {
                proof {
                    lemma_cell_index(r as int, c as int, width as int);
                }
                bits.push(row[c]);
                c += 1;
            }
            proof {
                assert(r * width + width == (r + 1) * width) by (nonlinear_arith);
            }
            r += 1;
        }
        assert(bits@ =~= row_major(rows));
        assert(height * width == width * height) by (nonlinear_arith);
        ImageHash::from_bool_iter(bits, width as u32, height as u32)
    }

    /// Makes a hash of `width` columns and `height` rows from its bits in
    /// row-major order.
    pub fn from_bool_iter(bits: Vec<bool>, width: u32, height: u32) -> (hash: ImageHash)
        requires
            width > 0,
            height > 0,
            bits@.len() == width * height,
            bits@.len() <= max_bits(),
        ensures
            hash@.well_formed(),
            hash@.width == width,
            hash@.height == height,
            hash@.bits == bits@,
    {
        ImageHash { data: pack(&bits), width, height }
    }

    /// The bits of the hash in row-major order.
    pub fn flatten(&self) -> (bits: Vec<bool>)
        ensures
            bits@ == self@.bits,
            self@.well_formed(),
    {
        proof {
            use_type_invariant(self);
        }
        let n = bit_count(&self.data);
        let mut bits: Vec<bool> = Vec::new();
        let mut i: usize = 0;
        while i < n
            invariant
                n == stored_bits(self.data).len(),
                i <= n,
                bits@ == stored_bits(self.data).subrange(0, i as int),
            decreases n - i,
        {
            bits.push(bit_at(&self.data, i));
            i += 1;
        }
        bits
    }

    /// An iterator over the bits of the hash in row-major order.
    pub fn iter_bool(&self) -> (iter: std::vec::IntoIter<bool>)
        ensures
            iter.remaining() == self@.bits,
    {
        let bits = self.flatten();
        proof {
            vstd::std_specs::vec::axiom_spec_into_iter(bits);
        }
        bits.into_iter()
    }

    /// The rows of the hash, each a vector of its cells.
    pub fn matrix(&self) -> (rows: Vec<Vec<bool>>)
        ensures
            self@.well_formed(),
            rows@.len() == self@.height,
            forall|r: int| 0 <= r < rows@.len() ==> (#[trigger] rows@[r])@.len() == self@.width,
            forall|r: int, c: int|
                0 <= r < self@.height && 0 <= c < self@.width ==> #[trigger] rows@[r]@[c]
                    == self@.at(r, c),
    {
        proof {
            use_type_invariant(self);
        }
        let width = self.width as usize;
        let height = self.height as usize;
        let len = bit_count(&self.data);
        let mut rows: Vec<Vec<bool>> = Vec::new();
        let mut r: usize = 0;
        while r < height
            invariant
                self@.well_formed(),
                width == self@.width,
                height == self@.height,
                len == self@.bits.len(),
                r <= height,
                rows@.len() == r,
                forall|p: int| 0 <= p < r ==> (#[trigger] rows@[p])@.len() == width,
                forall|p: int, q: int|
                    0 <= p < r && 0 <= q < width ==> #[trigger] rows@[p]@[q] == self@.at(p, q),
            decreases height - r,
        {
            let mut row: Vec<bool> = Vec::new();
            let mut c: usize = 0;
            while c < width
                invariant
                    self@.well_formed(),
                    width == self@.width,
                    height == self@.height,
                    len == self@.bits.len(),
                    r < height,
                    c <= width,
                    row@.len() == c,
                    forall|q: int| 0 <= q < c ==> row@[q] == self@.at(r as int, q),
                decreases width - c,
            {
                proof {
                    lemma_cell_in_range(r as int, c as int, width as int, height as int);
                    assert(0 <= r * width) by (nonlinear_arith)
                        requires
                            0 <= r,
                            0 <= width,
                    ;
                }
                row.push(bit_at(&self.data, r * width + c));
                c += 1;
            }
            rows.push(row);
            r += 1;
        }
        rows
    }

    /// The shape of the hash: its number of rows, then of columns.
    pub fn shape(&self) -> (shape: (usize, usize))
        ensures
            shape.0 == self@.height,
            shape.1 == self@.width,
            shape.0 <= u32::MAX,
            shape.1 <= u32::MAX,
            self@.well_formed(),
            self@.bits.len() <= max_bits(),
    {
        proof {
            use_type_invariant(self);
        }
        (self.height as usize, self.width as usize)
    }

    /// The Hamming distance to `other`: the number of cells in which the two
    /// hashes differ. Hashes of different shapes have no distance.
    pub fn distance(&self, other: &ImageHash) -> (result: Result<usize, String>)
        ensures
            match self@.distance(other@) {
                Some(d) => {
                    &&& result == Ok::<usize, String>(d as usize)
                    &&& d <= self@.width * self@.height
                },
                None => result matches Err(msg) && msg@ == shape_mismatch_text(),
            },
    {
        proof {
            use_type_invariant(self);
            use_type_invariant(other);
        }
        if self.width != other.width || self.height != other.height {
            return Err("Cannot compute distance of hashes with different sizes".to_string());
        }
        let n = bit_count(&self.data);
        let ghost a = stored_bits(self.data);
        let ghost b = stored_bits(other.data);
        let mut count: usize = 0;
        let mut i: usize = 0;
        while i < n
            invariant
                a == stored_bits(self.data),
                b == stored_bits(other.data),
                n == a.len(),
                n == b.len(),
                i <= n,
                count <= i,
                count == hamming(a.subrange(0, i as int), b.subrange(0, i as int)),
            decreases n - i,
        {
            proof {
                let a1 = a.subrange(0, i + 1);
                let b1 = b.subrange(0, i + 1);
                assert(a1.drop_last() =~= a.subrange(0, i as int));
                assert(b1.drop_last() =~= b.subrange(0, i as int));
            }
            if bit_at(&self.data, i) != bit_at(&other.data, i) {
                count += 1;
            }
            i += 1;
        }
        assert(a.subrange(0, n as int) =~= a);
        assert(b.subrange(0, n as int) =~= b);
        proof {
            lemma_hamming_bound(a, b);
        }
        Ok(count)
    }

    /// The text form of the hash: its bits as lowercase hex digits, with
    /// zero bits in front to fill the first digit.
    pub fn encode(&self) -> (text: String)
        ensures
            text@ == encoded(self@.bits),
    {
        proof {
            use_type_invariant(self);
        }
        let len = bit_count(&self.data);
        let digits = len / 4 + (if len % 4 == 0 { 0 } else { 1 });
        let fill = digits * 4 - len;
        let ghost bits = stored_bits(self.data);
        let mut text = String::new();
        let mut k: usize = 0;
        while k < digits
            invariant
                bits == stored_bits(self.data),
                len == bits.len(),
                len <= usize::MAX / 8,
                digits == digit_count(bits.len()),
                fill == lead(bits.len()),
                k <= digits,
                text@ == encoded(bits).subrange(0, k as int),
            decreases digits - k,
        {
            let b3 = self.padded_bit(4 * k, fill);
            let b2 = self.padded_bit(4 * k + 1, fill);
            let b1 = self.padded_bit(4 * k + 2, fill);
            let b0 = self.padded_bit(4 * k + 3, fill);
            let value: u8 = (if b3 { 8u8 } else { 0u8 }) + (if b2 { 4u8 } else { 0u8 })
                + (if b1 { 2u8 } else { 0u8 }) + (if b0 { 1u8 } else { 0u8 });
            assert(value == digit_value(bits, k as int));
            text.push(hex_digit(value));
            k += 1;
            assert(text@ =~= encoded(bits).subrange(0, k as int));
        }
        assert(text@ =~= encoded(bits));
        text
    }

    /// Bit `j` of the bits with `fill` zero bits in front of them.
    fn padded_bit(&self, j: usize, fill: usize) -> (bit: bool)
        requires
            fill == lead(self@.bits.len()),
            j < fill + self@.bits.len(),
        ensures
            bit == padded(self@.bits)[j as int],
    {
        if j < fill {
            false
        } else {
            bit_at(&self.data, j - fill)
        }
    }

    /// Reads a hash of `width` columns and `height` rows from its text form.
    ///
    /// The text is taken by its UTF-8 bytes. It must hold one hex digit, in
    /// either case, for every four bits of the matrix, the first digit
    /// standing for the bits that are left over; of that digit the bits that
    /// the matrix has no cell for are dropped.
    pub fn decode(s: &str, width: u32, height: u32) -> (result: Result<ImageHash, String>)
        requires
            s.spec_bytes().len() == digit_count((width * height) as nat) ==> width * height
                <= max_bits(),
        ensures
            match decoded(s.spec_bytes(), width, height) {
                Ok(bits) => {
                    &&& result matches Ok(hash)
                    &&& hash@.well_formed()
                    &&& hash@.width == width
                    &&& hash@.height == height
                    &&& hash@.bits == bits
                },
                Err(e) => result matches Err(msg) && msg@ == e.text(),
            },
    {
        match Self::decode_bits(s.as_bytes(), width, height) {
            Ok(bits) => {
                assert(width > 0 && height > 0) by (nonlinear_arith)
                    requires
                        width * height > 0,
                ;
                Ok(ImageHash::from_bool_iter(bits, width, height))
            },
            Err(e) => Err(e.message()),
        }
    }

    /// Reads the bits of a matrix of `width` columns and `height` rows from
    /// the bytes of its text form.
    pub fn decode_bits(text: &[u8], width: u32, height: u32) -> (result: Result<
        Vec<bool>,
        DecodeError,
    >)
        requires
            text@.len() == digit_count((width * height) as nat) ==> width * height <= max_bits(),
        ensures
            match decoded(text@, width, height) {
                Ok(bits) => {
                    &&& result matches Ok(v)
                    &&& v@ == bits
                    &&& bits.len() == width * height
                    &&& bits.len() > 0
                },
                Err(e) => result == Err::<Vec<bool>, DecodeError>(e),
            },
    {
        assert(width * height <= u32::MAX * u32::MAX) by (nonlinear_arith);
        let len: u64 = (width as u64) * (height as u64);
        if len == 0 {
            return Err(DecodeError::ZeroDimension);
        }
        if text.len() == 0 {
            return Err(DecodeError::EmptyText);
        }
        let digits: u64 = len / 4 + (if len % 4 == 0 { 0 } else { 1 });
        if text.len() as u64 != digits {
            return Err(DecodeError::WrongLength);
        }
        let fill: usize = (digits * 4 - len) as usize;
        let count: usize = text.len();
        let mut bits: Vec<bool> = Vec::new();
        let mut k: usize = 0;
        while k < count
            invariant
                len == width * height,
                count == text@.len(),
                count == digit_count(len as nat),
                fill == lead(len as nat),
                len <= usize::MAX / 8,
                len > 0,
                k <= count,
                forall|i: int| 0 <= i < k ==> hex_value(#[trigger] text@[i]) is Some,
                bits@.len() == (if k == 0 { 0int } else { 4 * k - fill }),
                forall|i: int| 0 <= i < bits@.len() ==> bits@[i] == text_bit(text@, len as nat, i),
            decreases count - k,
        {
            let value = match parse_digit(text[k]) {
                Some(v) => v,
                None => {
                    assert(hex_value(text@[k as int]) is None);
                    return Err(DecodeError::InvalidDigit);
                },
            };
            if 4 * k >= fill {
                bits.push(value / 8 % 2 == 1);
            }
            if 4 * k + 1 >= fill {
                bits.push(value / 4 % 2 == 1);
            }
            if 4 * k + 2 >= fill {
                bits.push(value / 2 % 2 == 1);
            }
            bits.push(value % 2 == 1);
            k += 1;
        }
        assert(bits@ =~= Seq::new(len as nat, |i: int| text_bit(text@, len as nat, i)));
        Ok(bits)
    }
}

impl PartialEq for ImageHash {
    /// Two hashes are equal when they have one shape and the same bits.
    fn eq(&self, other: &ImageHash) -> (equal: bool) {
        proof {
            use_type_invariant(self);
            use_type_invariant(other);
        }
        if self.width != other.width || self.height != other.height {
            return false;
        }
        let n = bit_count(&self.data);
        let mut i: usize = 0;
        while i < n
            invariant
                n == stored_bits(self.data).len(),
                n == stored_bits(other.data).len(),
                i <= n,
                stored_bits(self.data).subrange(0, i as int) == stored_bits(other.data).subrange(
                    0,
                    i as int,
                ),
            decreases n - i,
        {
            if bit_at(&self.data, i) != bit_at(&other.data, i) {
                assert(stored_bits(self.data)[i as int] != stored_bits(other.data)[i as int]);
                return false;
            }
            assert(stored_bits(self.data).subrange(0, i + 1) =~= stored_bits(self.data).subrange(
                0,
                i as int,
            ).push(stored_bits(self.data)[i as int]));
            assert(stored_bits(other.data).subrange(0, i + 1) =~= stored_bits(other.data).subrange(
                0,
                i as int,
            ).push(stored_bits(other.data)[i as int]));
            i += 1;
        }
        assert(stored_bits(self.data) =~= stored_bits(self.data).subrange(0, n as int));
        assert(stored_bits(other.data) =~= stored_bits(other.data).subrange(0, n as int));
        true
    }
}

impl PartialEqSpecImpl for ImageHash {
    open spec fn obeys_eq_spec() -> bool {
        true
    }

    open spec fn eq_spec(&self, other: &ImageHash) -> bool {
        self@ == other@
    }
}

/// Two bit sequences differ in no more places than they have.
pub proof fn lemma_hamming_bound(a: Seq<bool>, b: Seq<bool>)
    ensures
        hamming(a, b) <= a.len(),
    decreases a.len(),
{
    if a.len() > 0 {
        lemma_hamming_bound(a.drop_last(), b.drop_last());
    }
}

/// Two bit sequences of one length differ in the same places whichever of
/// them comes first.
pub proof fn lemma_hamming_symmetric(a: Seq<bool>, b: Seq<bool>)
    requires
        a.len() == b.len(),
    ensures
        hamming(a, b) == hamming(b, a),
    decreases a.len(),
{
    if a.len() > 0 {
        lemma_hamming_symmetric(a.drop_last(), b.drop_last());
    }
}

/// A bit sequence differs from itself in no place.
pub proof fn lemma_hamming_self(a: Seq<bool>)
    ensures
        hamming(a, a) == 0,
    decreases a.len(),
{
    if a.len() > 0 {
        lemma_hamming_self(a.drop_last());
    }
}

/// The distance between two hashes is the same in both directions: it is
/// the same number, or there is none either way.
pub proof fn lemma_distance_symmetric(a: BitMatrix, b: BitMatrix)
    requires
        a.well_formed(),
        b.well_formed(),
    ensures
        a.distance(b) == b.distance(a),
{
    if a.width == b.width && a.height == b.height {
        lemma_hamming_symmetric(a.bits, b.bits);
    }
}

/// The distance of a hash to itself is zero.
pub proof fn lemma_distance_identity(a: BitMatrix)
    ensures
        a.distance(a) == Some(0nat),
{
    lemma_hamming_self(a.bits);
}

/// The distance between two hashes of one shape is at most the number of
/// their cells.
pub proof fn lemma_distance_bound(a: BitMatrix, b: BitMatrix)
    requires
        a.well_formed(),
        b.well_formed(),
        a.width == b.width,
        a.height == b.height,
    ensures
        a.distance(b) matches Some(d) && 0 <= d <= a.width * a.height,
{
    lemma_hamming_bound(a.bits, b.bits);
}

/// Hashes of different shapes have no distance.
pub proof fn lemma_distance_needs_one_shape(a: BitMatrix, b: BitMatrix)
    requires
        a.width != b.width || a.height != b.height,
    ensures
        a.distance(b) is None,
{
}

/// Cell `(r, c)` of a matrix `width` wide stands at `r * width + c`.
proof fn lemma_cell_index(r: int, c: int, width: int)
    requires
        0 <= r,
        0 <= c < width,
    ensures
        (r * width + c) / width == r,
        (r * width + c) % width == c,
{
    vstd::arithmetic::div_mod::lemma_fundamental_div_mod_converse(r * width + c, width, r, c);
}

/// Cell `(r, c)` of a matrix stands inside its row-major sequence.
proof fn lemma_cell_in_range(r: int, c: int, width: int, height: int)
    requires
        0 <= r < height,
        0 <= c < width,
    ensures
        0 <= r * width + c < width * height,
{
    assert(r * width + c < width * height) by (nonlinear_arith)
        requires
            0 <= r < height,
            0 <= c < width,
    ;
    assert(0 <= r * width + c) by (nonlinear_arith)
        requires
            0 <= r,
            0 <= c < width,
    ;
}

} // verus!
