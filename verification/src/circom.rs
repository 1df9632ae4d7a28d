//! The binary format of rank-1 constraint systems that circom writes.
//!
//! A file starts with the magic bytes `r1cs`, a version and a count of
//! sections; every section is preceded by its type and its size. The header
//! section holds the field and the numbers of wires and constraints, the
//! constraint section three sparse vectors for every constraint, and the map
//! section a label for every wire. All numbers are little endian.

use crate::bytes::{le_value, read_u32_le, read_u64_le};
use crate::field::{bn254_modulus, Fr, PF};
use crate::linalg::{residues, FVec, SparseFMatrix, SparseVec};
use crate::zkp::{R1CSWithMetadata, R1CS};
use std::collections::HashMap;
use vstd::prelude::*;

verus! {

/// Why a file is not a rank-1 constraint system that this library reads.
#[derive(Clone, Copy, Debug, PartialEq, Eq, Structural)]
pub enum ParseError {
    /// The file ends before what it announces.
    UnexpectedEnd,
    /// The file does not start with `r1cs`.
    InvalidMagic,
    /// The version is not 1.
    UnsupportedVersion,
    /// The header, the constraints or the wire map is missing.
    MissingSection,
    /// The header section does not have the size of a header.
    InvalidHeaderSize,
    /// The field elements do not take 32 bytes.
    UnsupportedFieldSize,
    /// The field is not the BN254 scalar field.
    UnsupportedPrime,
    /// A coefficient is not below the modulus.
    NonCanonicalElement,
    /// The wire map does not have one label for every wire.
    InvalidMapSize,
    /// Wire 0 is not mapped to label 0.
    WireZeroNotMapped,
    /// The values of a witness do not fill their section.
    InvalidWitnessSize,
}

impl ParseError {
    /// The message that goes with the error.
    pub open spec fn message_text(self) -> Seq<char> {
        match self {
            ParseError::UnexpectedEnd => "failed to fill whole buffer"@,
            ParseError::InvalidMagic => "Invalid magic number"@,
            ParseError::UnsupportedVersion => "Unsupported version"@,
            ParseError::MissingSection => "A section of the file is missing"@,
            ParseError::InvalidHeaderSize => "Invalid header section size"@,
            ParseError::UnsupportedFieldSize => "This parser only supports 32-byte fields"@,
            ParseError::UnsupportedPrime => "This parser only supports bn254"@,
            ParseError::NonCanonicalElement => "A field element is not below the modulus"@,
            ParseError::InvalidMapSize => "Invalid map section size"@,
            ParseError::WireZeroNotMapped => "Wire 0 should always be mapped to 0"@,
            ParseError::InvalidWitnessSize => "Invalid witness section size"@,
        }
    }

    /// The message that goes with the error.
    pub fn message(self) -> (r: &'static str)
        ensures
            r@ == self.message_text(),
            self == ParseError::UnexpectedEnd ==> r@ == "failed to fill whole buffer"@,
            self == ParseError::InvalidMagic ==> r@ == "Invalid magic number"@,
            self == ParseError::UnsupportedVersion ==> r@ == "Unsupported version"@,
            self == ParseError::MissingSection ==> r@ == "A section of the file is missing"@,
            self == ParseError::InvalidHeaderSize ==> r@ == "Invalid header section size"@,
            self == ParseError::UnsupportedFieldSize ==> r@
                == "This parser only supports 32-byte fields"@,
            self == ParseError::UnsupportedPrime ==> r@ == "This parser only supports bn254"@,
            self == ParseError::NonCanonicalElement ==> r@
                == "A field element is not below the modulus"@,
            self == ParseError::InvalidMapSize ==> r@ == "Invalid map section size"@,
            self == ParseError::WireZeroNotMapped ==> r@ == "Wire 0 should always be mapped to 0"@,
            self == ParseError::InvalidWitnessSize ==> r@ == "Invalid witness section size"@,
    {
        match self {
            ParseError::UnexpectedEnd => "failed to fill whole buffer",
            ParseError::InvalidMagic => "Invalid magic number",
            ParseError::UnsupportedVersion => "Unsupported version",
            ParseError::MissingSection => "A section of the file is missing",
            ParseError::InvalidHeaderSize => "Invalid header section size",
            ParseError::UnsupportedFieldSize => "This parser only supports 32-byte fields",
            ParseError::UnsupportedPrime => "This parser only supports bn254",
            ParseError::NonCanonicalElement => "A field element is not below the modulus",
            ParseError::InvalidMapSize => "Invalid map section size",
            ParseError::WireZeroNotMapped => "Wire 0 should always be mapped to 0",
            ParseError::InvalidWitnessSize => "Invalid witness section size",
        }
    }
}

/// The header of a file.
#[derive(Debug)]
pub struct Header {
    pub field_size: u32,
    /// The modulus of the field, least significant byte first.
    pub prime_size: Vec<u8>,
    pub n_wires: u32,
    pub n_pub_out: u32,
    pub n_pub_in: u32,
    pub n_prv_in: u32,
    pub n_labels: u64,
    pub n_constraints: u32,
}

/// The constraints of a file: row by row the three matrices.
#[derive(Debug)]
pub struct Constraints {
    pub a_rows: SparseFMatrix<Fr>,
    pub b_rows: SparseFMatrix<Fr>,
    pub c_rows: SparseFMatrix<Fr>,
}

/// A file.
#[derive(Debug)]
pub struct R1CSFile {
    pub version: u32,
    pub header: Header,
    pub constraints: Constraints,
    pub wire_mapping: Vec<u64>,
}

/// What a header holds.
pub struct HeaderModel {
    pub field_size: u32,
    pub prime: Seq<u8>,
    pub n_wires: u32,
    pub n_pub_out: u32,
    pub n_pub_in: u32,
    pub n_prv_in: u32,
    pub n_labels: u64,
    pub n_constraints: u32,
}

/// What a file holds.
pub struct FileModel {
    pub version: u32,
    pub header: HeaderModel,
    pub a_rows: Seq<Seq<(int, int)>>,
    pub b_rows: Seq<Seq<(int, int)>>,
    pub c_rows: Seq<Seq<(int, int)>>,
    pub wire_mapping: Seq<u64>,
}

impl View for Header {
    type V = HeaderModel;

    open spec fn view(&self) -> HeaderModel {
        HeaderModel {
            field_size: self.field_size,
            prime: self.prime_size@,
            n_wires: self.n_wires,
            n_pub_out: self.n_pub_out,
            n_pub_in: self.n_pub_in,
            n_prv_in: self.n_prv_in,
            n_labels: self.n_labels,
            n_constraints: self.n_constraints,
        }
    }
}

impl View for R1CSFile {
    type V = FileModel;

    open spec fn view(&self) -> FileModel {
        FileModel {
            version: self.version,
            header: self.header@,
            a_rows: self.constraints.a_rows@,
            b_rows: self.constraints.b_rows@,
            c_rows: self.constraints.c_rows@,
            wire_mapping: self.wire_mapping@,
        }
    }
}

/// The BN254 scalar prime, least significant byte first.
pub open spec fn bn254_prime_le() -> Seq<u8> {
    seq![
        1u8, 0u8, 0u8, 240u8, 147u8, 245u8, 225u8, 67u8, 145u8, 112u8, 185u8, 121u8, 72u8, 232u8,
        51u8, 40u8, 93u8, 88u8, 129u8, 129u8, 182u8, 69u8, 80u8, 184u8, 41u8, 160u8, 49u8, 225u8,
        114u8, 78u8, 100u8, 48u8,
    ]
}

/// The 32-bit number at a position, if the file reaches that far.
pub open spec fn u32_at(b: Seq<u8>, pos: int) -> Option<u32> {
    if 0 <= pos && pos + 4 <= b.len() {
        Some(le_value(b.subrange(pos, pos + 4)) as u32)
    } else {
        None
    }
}

/// The 64-bit number at a position, if the file reaches that far.
pub open spec fn u64_at(b: Seq<u8>, pos: int) -> Option<u64> {
    if 0 <= pos && pos + 8 <= b.len() {
        Some(le_value(b.subrange(pos, pos + 8)) as u64)
    } else {
        None
    }
}

/// Where the content of a section of each of the three types was last seen,
/// and its size.
pub struct SectionTable {
    pub header: Option<(int, u64)>,
    pub constraints: Option<(int, u64)>,
    pub wire_map: Option<(int, u64)>,
}

/// A table with one more section noted.
pub open spec fn noted(table: SectionTable, kind: u32, at: int, size: u64) -> SectionTable {
    if kind == 1 {
        SectionTable { header: Some((at, size)), ..table }
    } else if kind == 2 {
        SectionTable { constraints: Some((at, size)), ..table }
    } else if kind == 3 {
        SectionTable { wire_map: Some((at, size)), ..table }
    } else {
        table
    }
}

/// The table of the first `n` sections that start at `pos`, together with
/// the position behind them; none if the file ends within the type or the
/// size of one of them. A section that claims more bytes than are left is
/// taken to reach to the end of the file.
pub open spec fn sections(b: Seq<u8>, pos: int, n: nat) -> Option<(SectionTable, int)>
    decreases n,
{
    if n == 0 {
        Some((SectionTable { header: None, constraints: None, wire_map: None }, pos))
    } else {
        match sections(b, pos, (n - 1) as nat) {
            None => None,
            Some((table, p)) => match (u32_at(b, p), u64_at(b, p + 4)) {
                (Some(kind), Some(size)) => {
                    let at = p + 12;
                    let next = if size <= b.len() - at {
                        at + size
                    } else {
                        b.len() as int
                    };
                    Some((noted(table, kind, at, size), next))
                },
                _ => None,
            },
        }
    }
}

/// The header whose section starts at `at` and has the size `size`.
pub open spec fn header_at(b: Seq<u8>, at: int, size: u64) -> Result<HeaderModel, ParseError> {
    match u32_at(b, at) {
        None => Err(ParseError::UnexpectedEnd),
        Some(field_size) => {
            let rest = at + 4 + field_size;
            if rest > b.len() {
                Err(ParseError::UnexpectedEnd)
            } else if size != 32 + field_size {
                Err(ParseError::InvalidHeaderSize)
            } else {
                match (
                    u32_at(b, rest),
                    u32_at(b, rest + 4),
                    u32_at(b, rest + 8),
                    u32_at(b, rest + 12),
                    u64_at(b, rest + 16),
                    u32_at(b, rest + 24),
                ) {
                    (
                        Some(n_wires),
                        Some(n_pub_out),
                        Some(n_pub_in),
                        Some(n_prv_in),
                        Some(n_labels),
                        Some(n_constraints),
                    ) => Ok(
                        HeaderModel {
                            field_size,
                            prime: b.subrange(at + 4, rest),
                            n_wires,
                            n_pub_out,
                            n_pub_in,
                            n_prv_in,
                            n_labels,
                            n_constraints,
                        },
                    ),
                    _ => Err(ParseError::UnexpectedEnd),
                }
            }
        },
    }
}

/// The entry of a sparse vector at a position: a column and a coefficient
/// below the modulus.
pub open spec fn entry_at(b: Seq<u8>, pos: int) -> Result<(int, int), ParseError> {
    if !(0 <= pos && pos + 36 <= b.len()) {
        Err(ParseError::UnexpectedEnd)
    } else if le_value(b.subrange(pos + 4, pos + 36)) >= bn254_modulus() {
        Err(ParseError::NonCanonicalElement)
    } else {
        Ok((le_value(b.subrange(pos, pos + 4)), le_value(b.subrange(pos + 4, pos + 36))))
    }
}

/// The first `n` entries of a sparse vector whose entries start at `pos`.
pub open spec fn entries_at(b: Seq<u8>, pos: int, n: nat) -> Result<Seq<(int, int)>, ParseError>
    decreases n,
{
    if n == 0 {
        Ok(Seq::empty())
    } else {
        match entries_at(b, pos, (n - 1) as nat) {
            Err(e) => Err(e),
            Ok(before) => match entry_at(b, pos + 36 * (n - 1)) {
                Err(e) => Err(e),
                Ok(entry) => Ok(before.push(entry)),
            },
        }
    }
}

/// The sparse vector at a position, together with the position behind it:
/// the number of its entries, then the entries.
pub open spec fn sparse_vec_at(b: Seq<u8>, pos: int) -> Result<(Seq<(int, int)>, int), ParseError> {
    match u32_at(b, pos) {
        None => Err(ParseError::UnexpectedEnd),
        Some(nnz) => match entries_at(b, pos + 4, nnz as nat) {
            Err(e) => Err(e),
            Ok(entries) => Ok((entries, pos + 4 + 36 * nnz)),
        },
    }
}

/// The rows of the three matrices and the position behind them.
pub struct ConstraintsModel {
    pub a_rows: Seq<Seq<(int, int)>>,
    pub b_rows: Seq<Seq<(int, int)>>,
    pub c_rows: Seq<Seq<(int, int)>>,
    pub end: int,
}

/// The first `n` constraints that start at `pos`: for each a row of `A`, of
/// `B` and of `C`.
pub open spec fn constraints_at(b: Seq<u8>, pos: int, n: nat) -> Result<
    ConstraintsModel,
    ParseError,
>
    decreases n,
{
    if n == 0 {
        Ok(
            ConstraintsModel {
                a_rows: Seq::empty(),
                b_rows: Seq::empty(),
                c_rows: Seq::empty(),
                end: pos,
            },
        )
    } else {
        match constraints_at(b, pos, (n - 1) as nat) {
            Err(e) => Err(e),
            Ok(before) => match sparse_vec_at(b, before.end) {
                Err(e) => Err(e),
                Ok((a, after_a)) => match sparse_vec_at(b, after_a) {
                    Err(e) => Err(e),
                    Ok((bb, after_b)) => match sparse_vec_at(b, after_b) {
                        Err(e) => Err(e),
                        Ok((c, after_c)) => Ok(
                            ConstraintsModel {
                                a_rows: before.a_rows.push(a),
                                b_rows: before.b_rows.push(bb),
                                c_rows: before.c_rows.push(c),
                                end: after_c,
                            },
                        ),
                    },
                },
            },
        }
    }
}

/// The first `n` labels of a wire map that starts at `at`.
pub open spec fn labels_at(b: Seq<u8>, at: int, n: nat) -> Option<Seq<u64>>
    decreases n,
{
    if n == 0 {
        Some(Seq::empty())
    } else {
        match labels_at(b, at, (n - 1) as nat) {
            None => None,
            Some(before) => match u64_at(b, at + 8 * (n - 1)) {
                None => None,
                Some(label) => Some(before.push(label)),
            },
        }
    }
}

/// The wire map whose section starts at `at` and has the size `size`: a
/// label for every wire, the first of them zero.
pub open spec fn wire_map_at(b: Seq<u8>, at: int, size: u64, n_wires: u32) -> Result<
    Seq<u64>,
    ParseError,
> {
    if size != n_wires * 8 {
        Err(ParseError::InvalidMapSize)
    } else {
        match labels_at(b, at, n_wires as nat) {
            None => Err(ParseError::UnexpectedEnd),
            Some(labels) => if n_wires == 0 || labels[0] != 0 {
                Err(ParseError::WireZeroNotMapped)
            } else {
                Ok(labels)
            },
        }
    }
}

/// What the bytes of a file hold, or why they are not a file that this
/// library reads.
pub open spec fn parsed(b: Seq<u8>) -> Result<FileModel, ParseError> {
    if b.len() < 4 {
        Err(ParseError::UnexpectedEnd)
    } else if b.subrange(0, 4) != seq![0x72u8, 0x31u8, 0x63u8, 0x73u8] {
        Err(ParseError::InvalidMagic)
    } else {
        match u32_at(b, 4) {
            None => Err(ParseError::UnexpectedEnd),
            Some(version) => if version != 1 {
                Err(ParseError::UnsupportedVersion)
            } else {
                match u32_at(b, 8) {
                    None => Err(ParseError::UnexpectedEnd),
                    Some(count) => match sections(b, 12, count as nat) {
                        None => Err(ParseError::UnexpectedEnd),
                        Some((table, _)) => parsed_sections(b, version, table),
                    },
                }
            },
        }
    }
}

/// What the sections of a file hold.
pub open spec fn parsed_sections(b: Seq<u8>, version: u32, table: SectionTable) -> Result<
    FileModel,
    ParseError,
> {
    match table.header {
        None => Err(ParseError::MissingSection),
        Some((at, size)) => match header_at(b, at, size) {
            Err(e) => Err(e),
            Ok(header) => if header.field_size != 32 {
                Err(ParseError::UnsupportedFieldSize)
            } else if header.prime != bn254_prime_le() {
                Err(ParseError::UnsupportedPrime)
            } else {
                match table.constraints {
                    None => Err(ParseError::MissingSection),
                    Some((c_at, _)) => match constraints_at(b, c_at, header.n_constraints as nat) {
                        Err(e) => Err(e),
                        Ok(constraints) => match table.wire_map {
                            None => Err(ParseError::MissingSection),
                            Some((m_at, m_size)) => match wire_map_at(
                                b,
                                m_at,
                                m_size,
                                header.n_wires,
                            ) {
                                Err(e) => Err(e),
                                Ok(wire_mapping) => Ok(
                                    FileModel {
                                        version,
                                        header,
                                        a_rows: constraints.a_rows,
                                        b_rows: constraints.b_rows,
                                        c_rows: constraints.c_rows,
                                        wire_mapping,
                                    },
                                ),
                            },
                        },
                    },
                }
            },
        },
    }
}

/// Where a section of a type was last seen, and its size, if the map holds
/// the type.
pub open spec fn found(m: Map<u32, (usize, u64)>, kind: u32) -> Option<(int, u64)> {
    if m.contains_key(kind) {
        Some((m[kind].0 as int, m[kind].1))
    } else {
        None
    }
}

/// The table of the three types of section that a map from types to
/// positions and sizes holds.
pub open spec fn table_of(m: Map<u32, (usize, u64)>) -> SectionTable {
    SectionTable { header: found(m, 1), constraints: found(m, 2), wire_map: found(m, 3) }
}

/// Whether every position in a map lies within `len` bytes.
pub open spec fn positions_within(m: Map<u32, (usize, u64)>, len: int) -> bool {
    forall|kind: u32| #[trigger] m.contains_key(kind) ==> m[kind].0 <= len
}

/// The 32-bit number at a position, if the file reaches that far.
fn get_u32(bytes: &[u8], pos: usize) -> (r: Option<u32>)
    ensures
        r == u32_at(bytes@, pos as int),
        r is Some <==> pos + 4 <= bytes@.len(),
{
    if bytes.len() >= 4 && pos <= bytes.len() - 4 {
        Some(read_u32_le(bytes, pos))
    } else {
        None
    }
}

/// The 64-bit number at a position, if the file reaches that far.
fn get_u64(bytes: &[u8], pos: usize) -> (r: Option<u64>)
    ensures
        r == u64_at(bytes@, pos as int),
        r is Some <==> pos + 8 <= bytes@.len(),
{
    if bytes.len() >= 8 && pos <= bytes.len() - 8 {
        Some(read_u64_le(bytes, pos))
    } else {
        None
    }
}

/// Walks over the sections and notes where each type was last seen.
fn scan_sections(bytes: &[u8], count: u32) -> (r: Option<HashMap<u32, (usize, u64)>>)
    requires
        bytes@.len() >= 12,
    ensures
        match r {
            Some(map) => sections(bytes@, 12, count as nat) matches Some((t, _)) && t == table_of(
                map@,
            ) && positions_within(map@, bytes@.len() as int),
            None => sections(bytes@, 12, count as nat) is None,
        },
{
    broadcast use vstd::std_specs::hash::group_hash_axioms;

    let mut map: HashMap<u32, (usize, u64)> = HashMap::new();
    let mut pos: usize = 12;
    let mut i: u32 = 0;
    let len: usize = bytes.len();
    assert(table_of(map@) == SectionTable { header: None, constraints: None, wire_map: None });
    while i < count
        invariant
            i <= count,
            len == bytes@.len(),
            12 <= pos <= bytes@.len(),
            sections(bytes@, 12, i as nat) == Some((table_of(map@), pos as int)),
            positions_within(map@, bytes@.len() as int),
        decreases count - i,
    {
        let kind: u32 = match get_u32(bytes, pos) {
            Some(kind) => kind,
            None => {
                proof {
                    lemma_sections_stay_none(bytes@, 12, (i + 1) as nat, count as nat);
                }
                return None;
            },
        };
        let size: u64 = match get_u64(bytes, pos + 4) {
            Some(size) => size,
            None => {
                proof {
                    lemma_sections_stay_none(bytes@, 12, (i + 1) as nat, count as nat);
                }
                return None;
            },
        };
        let at: usize = pos + 12;
        let ghost before: Map<u32, (usize, u64)> = map@;
        map.insert(kind, (at, size));
        assert(table_of(map@) == noted(table_of(before), kind, at as int, size));
        let left: usize = bytes.len() - at;
        pos = if size <= left as u64 {
            at + size as usize
        } else {
            bytes.len()
        };
        i += 1;
    }
    Some(map)
}

/// Where a section of a type was last seen, and its size.
fn section_of(map: &HashMap<u32, (usize, u64)>, kind: u32) -> (r: Option<(usize, u64)>)
    ensures
        r == if map@.contains_key(kind) {
            Some(map@[kind])
        } else {
            None
        },
{
    broadcast use vstd::std_specs::hash::group_hash_axioms;

    match map.get(&kind) {
        Some(v) => Some(*v),
        None => None,
    }
}

/// Once the file has ended within a section record, it has ended for every
/// larger number of sections.
proof fn lemma_sections_stay_none(b: Seq<u8>, pos: int, n: nat, more: nat)
    requires
        n <= more,
        sections(b, pos, n) is None,
    ensures
        sections(b, pos, more) is None,
    decreases more,
{
    if more > n {
        lemma_sections_stay_none(b, pos, n, (more - 1) as nat);
    }
}

/// Reads the header whose section starts at `at` and has the size `size`.
fn read_header(bytes: &[u8], at: usize, size: u64) -> (r: Result<Header, ParseError>)
    requires
        at <= bytes@.len(),
    ensures
        match r {
            Ok(h) => header_at(bytes@, at as int, size) == Ok::<HeaderModel, ParseError>(h@),
            Err(e) => header_at(bytes@, at as int, size) == Err::<HeaderModel, ParseError>(e),
        },
{
    let len: usize = bytes.len();
    let field_size: u32 = match get_u32(bytes, at) {
        Some(x) => x,
        None => {
            return Err(ParseError::UnexpectedEnd);
        },
    };
    let after: usize = at + 4;
    if field_size as u64 > (bytes.len() - after) as u64 {
        return Err(ParseError::UnexpectedEnd);
    }
    let rest: usize = after + field_size as usize;
    let mut prime_size: Vec<u8> = Vec::with_capacity(field_size as usize);
    let mut i: usize = after;
    while i < rest
        invariant
            after <= i <= rest,
            rest <= bytes@.len(),
            prime_size@ == bytes@.subrange(after as int, i as int),
        decreases rest - i,
    {
        prime_size.push(bytes[i]);
        assert(bytes@.subrange(after as int, i + 1) =~= bytes@.subrange(
            after as int,
            i as int,
        ).push(bytes@[i as int]));
        i += 1;
    }
    if size != 32 + field_size as u64 {
        return Err(ParseError::InvalidHeaderSize);
    }
    if bytes.len() - rest < 28 {
        return Err(ParseError::UnexpectedEnd);
    }
    let n_wires: u32 = read_u32_le(bytes, rest);
    let n_pub_out: u32 = read_u32_le(bytes, rest + 4);
    let n_pub_in: u32 = read_u32_le(bytes, rest + 8);
    let n_prv_in: u32 = read_u32_le(bytes, rest + 12);
    let n_labels: u64 = read_u64_le(bytes, rest + 16);
    let n_constraints: u32 = read_u32_le(bytes, rest + 24);
    Ok(
        Header {
            field_size,
            prime_size,
            n_wires,
            n_pub_out,
            n_pub_in,
            n_prv_in,
            n_labels,
            n_constraints,
        },
    )
}

/// Reads the sparse vector at a position.
fn read_sparse_vec(bytes: &[u8], pos: usize) -> (r: Result<(SparseVec<Fr>, usize), ParseError>)
    requires
        pos <= bytes@.len(),
    ensures
        match r {
            Ok((v, end)) => sparse_vec_at(bytes@, pos as int) == Ok::<
                (Seq<(int, int)>, int),
                ParseError,
            >((v@, end as int)) && end <= bytes@.len(),
            Err(e) => sparse_vec_at(bytes@, pos as int) == Err::<
                (Seq<(int, int)>, int),
                ParseError,
            >(e),
        },
{
    let len: usize = bytes.len();
    let nnz: u32 = match get_u32(bytes, pos) {
        Some(x) => x,
        None => {
            return Err(ParseError::UnexpectedEnd);
        },
    };
    let start: usize = pos + 4;
    let mut entries: Vec<(usize, Fr)> = Vec::new();
    let mut at: usize = start;
    let mut i: u32 = 0;
    assert(SparseVec(entries)@ =~= Seq::<(int, int)>::empty());
    while i < nnz
        invariant
            i <= nnz,
            len == bytes@.len(),
            u32_at(bytes@, pos as int) == Some(nnz),
            start == pos + 4,
            start <= at <= bytes@.len(),
            at == start + 36 * i,
            entries_at(bytes@, start as int, i as nat) == Ok::<Seq<(int, int)>, ParseError>(
                SparseVec(entries)@,
            ),
        decreases nnz - i,
    {
        if bytes.len() - at < 36 {
            proof {
                assert(entry_at(bytes@, at as int) == Err::<(int, int), ParseError>(
                    ParseError::UnexpectedEnd,
                ));
                assert(entries_at(bytes@, start as int, (i + 1) as nat) == Err::<
                    Seq<(int, int)>,
                    ParseError,
                >(ParseError::UnexpectedEnd));
                lemma_entries_stay_err(bytes@, start as int, (i + 1) as nat, nnz as nat);
            }
            return Err(ParseError::UnexpectedEnd);
        }
        let column: u32 = read_u32_le(bytes, at);
        let value: Fr = match Fr::from_le_bytes(bytes, at + 4) {
            Some(x) => x,
            None => {
                proof {
                    assert(entry_at(bytes@, at as int) == Err::<(int, int), ParseError>(
                        ParseError::NonCanonicalElement,
                    ));
                    assert(entries_at(bytes@, start as int, (i + 1) as nat) == Err::<
                        Seq<(int, int)>,
                        ParseError,
                    >(ParseError::NonCanonicalElement));
                    lemma_entries_stay_err(bytes@, start as int, (i + 1) as nat, nnz as nat);
                }
                return Err(ParseError::NonCanonicalElement);
            },
        };
        assert(entry_at(bytes@, at as int) == Ok::<(int, int), ParseError>(
            (column as int, value.value()),
        ));
        let ghost before: Seq<(int, int)> = SparseVec(entries)@;
        entries.push((column as usize, value));
        assert(SparseVec(entries)@ =~= before.push((column as int, value.value())));
        at += 36;
        i += 1;
    }
    Ok((SparseVec(entries), at))
}

/// Once an entry is in error, the vector is in that error however many
/// entries it announces.
proof fn lemma_entries_stay_err(b: Seq<u8>, pos: int, n: nat, more: nat)
    requires
        n <= more,
        entries_at(b, pos, n) is Err,
    ensures
        entries_at(b, pos, more) == entries_at(b, pos, n),
    decreases more,
{
    if more > n {
        lemma_entries_stay_err(b, pos, n, (more - 1) as nat);
    }
}

/// Once a constraint is in error, the constraints are in that error however
/// many there are.
proof fn lemma_constraints_stay_err(b: Seq<u8>, pos: int, n: nat, more: nat)
    requires
        n <= more,
        constraints_at(b, pos, n) is Err,
    ensures
        constraints_at(b, pos, more) is Err,
        constraints_at(b, pos, more)->Err_0 == constraints_at(b, pos, n)->Err_0,
    decreases more,
{
    if more > n {
        lemma_constraints_stay_err(b, pos, n, (more - 1) as nat);
    }
}

/// Reads `n` constraints that start at `pos`.
fn read_constraints(bytes: &[u8], pos: usize, n: u32) -> (r: Result<Constraints, ParseError>)
    requires
        pos <= bytes@.len(),
    ensures
        match r {
            Ok(c) => constraints_at(bytes@, pos as int, n as nat) matches Ok(m) && m.a_rows
                == c.a_rows@ && m.b_rows == c.b_rows@ && m.c_rows == c.c_rows@,
            Err(e) => constraints_at(bytes@, pos as int, n as nat) matches Err(f) && e == f,
        },
{
    let mut a_rows: Vec<SparseVec<Fr>> = Vec::new();
    let mut b_rows: Vec<SparseVec<Fr>> = Vec::new();
    let mut c_rows: Vec<SparseVec<Fr>> = Vec::new();
    let mut at: usize = pos;
    let mut i: u32 = 0;
    while i < n
        invariant
            i <= n,
            at <= bytes@.len(),
            constraints_at(bytes@, pos as int, i as nat) matches Ok(m) && m.a_rows
                == SparseFMatrix(a_rows)@ && m.b_rows == SparseFMatrix(b_rows)@ && m.c_rows
                == SparseFMatrix(c_rows)@ && m.end == at,
        decreases n - i,
    {
        let ghost a_before: Seq<Seq<(int, int)>> = SparseFMatrix(a_rows)@;
        let ghost b_before: Seq<Seq<(int, int)>> = SparseFMatrix(b_rows)@;
        let ghost c_before: Seq<Seq<(int, int)>> = SparseFMatrix(c_rows)@;
        let (a, after_a): (SparseVec<Fr>, usize) = match read_sparse_vec(bytes, at) {
            Ok(x) => x,
            Err(e) => {
                proof {
                    lemma_constraints_stay_err(bytes@, pos as int, (i + 1) as nat, n as nat);
                }
                return Err(e);
            },
        };
        let (b, after_b): (SparseVec<Fr>, usize) = match read_sparse_vec(bytes, after_a) {
            Ok(x) => x,
            Err(e) => {
                proof {
                    lemma_constraints_stay_err(bytes@, pos as int, (i + 1) as nat, n as nat);
                }
                return Err(e);
            },
        };
        let (c, after_c): (SparseVec<Fr>, usize) = match read_sparse_vec(bytes, after_b) {
            Ok(x) => x,
            Err(e) => {
                proof {
                    lemma_constraints_stay_err(bytes@, pos as int, (i + 1) as nat, n as nat);
                }
                return Err(e);
            },
        };
        let ghost av: Seq<(int, int)> = a@;
        let ghost bv: Seq<(int, int)> = b@;
        let ghost cv: Seq<(int, int)> = c@;
        a_rows.push(a);
        b_rows.push(b);
        c_rows.push(c);
        assert(SparseFMatrix(a_rows)@ =~= a_before.push(av));
        assert(SparseFMatrix(b_rows)@ =~= b_before.push(bv));
        assert(SparseFMatrix(c_rows)@ =~= c_before.push(cv));
        at = after_c;
        i += 1;
    }
    Ok(
        Constraints {
            a_rows: SparseFMatrix(a_rows),
            b_rows: SparseFMatrix(b_rows),
            c_rows: SparseFMatrix(c_rows),
        },
    )
}

/// Once the file has ended within a label, it has ended for every larger
/// number of labels.
proof fn lemma_labels_stay_none(b: Seq<u8>, at: int, n: nat, more: nat)
    requires
        n <= more,
        labels_at(b, at, n) is None,
    ensures
        labels_at(b, at, more) is None,
    decreases more,
{
    if more > n {
        lemma_labels_stay_none(b, at, n, (more - 1) as nat);
    }
}

/// The first label of a list does not change as the list grows.
proof fn lemma_first_label(b: Seq<u8>, at: int, n: nat)
    requires
        n >= 1,
        labels_at(b, at, n) is Some,
    ensures
        labels_at(b, at, 1) is Some,
        labels_at(b, at, n)->0.len() == n,
        labels_at(b, at, n)->0[0] == labels_at(b, at, 1)->0[0],
    decreases n,
{
    if n > 1 {
        lemma_first_label(b, at, (n - 1) as nat);
    } else {
        assert(labels_at(b, at, 0) == Some(Seq::<u64>::empty()));
    }
}

/// Reads the wire map whose section starts at `at` and has the size `size`.
fn read_map(bytes: &[u8], at: usize, size: u64, n_wires: u32) -> (r: Result<Vec<u64>, ParseError>)
    requires
        at <= bytes@.len(),
    ensures
        match r {
            Ok(labels) => wire_map_at(bytes@, at as int, size, n_wires) == Ok::<
                Seq<u64>,
                ParseError,
            >(labels@),
            Err(e) => wire_map_at(bytes@, at as int, size, n_wires) == Err::<
                Seq<u64>,
                ParseError,
            >(e),
        },
{
    if size != n_wires as u64 * 8 {
        return Err(ParseError::InvalidMapSize);
    }
    let mut labels: Vec<u64> = Vec::new();
    let mut pos: usize = at;
    let mut i: u32 = 0;
    let len: usize = bytes.len();
    while i < n_wires
        invariant
            i <= n_wires,
            len == bytes@.len(),
            size == n_wires * 8,
            at <= pos <= bytes@.len(),
            pos == at + 8 * i,
            labels_at(bytes@, at as int, i as nat) == Some(labels@),
            labels@.len() == i,
        decreases n_wires - i,
    {
        let label: u64 = match get_u64(bytes, pos) {
            Some(x) => x,
            None => {
                proof {
                    assert(labels_at(bytes@, at as int, (i + 1) as nat) is None);
                    lemma_labels_stay_none(bytes@, at as int, (i + 1) as nat, n_wires as nat);
                }
                return Err(ParseError::UnexpectedEnd);
            },
        };
        labels.push(label);
        pos += 8;
        i += 1;
    }
    if n_wires == 0 || labels[0] != 0 {
        return Err(ParseError::WireZeroNotMapped);
    }
    Ok(labels)
}

/// Whether bytes are the BN254 scalar prime, least significant byte first.
fn is_bn254_prime(bytes: &Vec<u8>) -> (r: bool)
    ensures
        r == (bytes@ == bn254_prime_le()),
{
    let prime: [u8; 32] = [
        1, 0, 0, 240, 147, 245, 225, 67, 145, 112, 185, 121, 72, 232, 51, 40, 93, 88, 129, 129, 182,
        69, 80, 184, 41, 160, 49, 225, 114, 78, 100, 48,
    ];
    assert(prime@ =~= bn254_prime_le());
    if bytes.len() != 32 {
        return false;
    }
    let mut i: usize = 0;
    while i < 32
        invariant
            i <= 32,
            bytes@.len() == 32,
            prime@ == bn254_prime_le(),
            forall|j: int| 0 <= j < i ==> bytes@[j] == prime@[j],
        decreases 32 - i,
    {
        if bytes[i] != prime[i] {
            return false;
        }
        i += 1;
    }
    assert(bytes@ =~= prime@);
    true
}

impl R1CSFile {
    /// Parses the bytes of a file in circom's binary format.
    pub fn from_reader(bytes: &[u8]) -> (r: Result<R1CSFile, ParseError>)
        ensures
            match r {
                Ok(file) => parsed(bytes@) == Ok::<FileModel, ParseError>(file@),
                Err(e) => parsed(bytes@) == Err::<FileModel, ParseError>(e),
            },
    {
        if bytes.len() < 4 {
            return Err(ParseError::UnexpectedEnd);
        }
        if bytes[0] != 0x72 || bytes[1] != 0x31 || bytes[2] != 0x63 || bytes[3] != 0x73 {
            assert(bytes@.subrange(0, 4)[0] == bytes@[0]);
            assert(bytes@.subrange(0, 4)[1] == bytes@[1]);
            assert(bytes@.subrange(0, 4)[2] == bytes@[2]);
            assert(bytes@.subrange(0, 4)[3] == bytes@[3]);
            return Err(ParseError::InvalidMagic);
        }
        assert(bytes@.subrange(0, 4) =~= seq![0x72u8, 0x31u8, 0x63u8, 0x73u8]);
        let version: u32 = match get_u32(bytes, 4) {
            Some(x) => x,
            None => {
                return Err(ParseError::UnexpectedEnd);
            },
        };
        if version != 1 {
            return Err(ParseError::UnsupportedVersion);
        }
        let num_sections: u32 = match get_u32(bytes, 8) {
            Some(x) => x,
            None => {
                return Err(ParseError::UnexpectedEnd);
            },
        };
        let map: HashMap<u32, (usize, u64)> = match scan_sections(bytes, num_sections) {
            Some(t) => t,
            None => {
                return Err(ParseError::UnexpectedEnd);
            },
        };
        let header: Header = match section_of(&map, 1) {
            None => {
                return Err(ParseError::MissingSection);
            },
            Some((at, size)) => match read_header(bytes, at, size) {
                Ok(h) => h,
                Err(e) => {
                    return Err(e);
                },
            },
        };
        if header.field_size != 32 {
            return Err(ParseError::UnsupportedFieldSize);
        }
        if !is_bn254_prime(&header.prime_size) {
            return Err(ParseError::UnsupportedPrime);
        }
        let constraints: Constraints = match section_of(&map, 2) {
            None => {
                return Err(ParseError::MissingSection);
            },
            Some((at, _)) => match read_constraints(bytes, at, header.n_constraints) {
                Ok(c) => c,
                Err(e) => {
                    return Err(e);
                },
            },
        };
        let wire_mapping: Vec<u64> = match section_of(&map, 3) {
            None => {
                return Err(ParseError::MissingSection);
            },
            Some((at, size)) => match read_map(bytes, at, size, header.n_wires) {
                Ok(m) => m,
                Err(e) => {
                    return Err(e);
                },
            },
        };
        Ok(R1CSFile { version, header, constraints, wire_mapping })
    }
}

/// The numbers from `from` up to, not including, `to`.
pub open spec fn range_seq(from: int, to: int) -> Seq<usize> {
    Seq::new((to - from) as nat, |i: int| (from + i) as usize)
}

/// The numbers from `from` up to, not including, `to`.
pub fn range_vec(from: usize, to: usize) -> (r: Vec<usize>)
    requires
        from <= to,
    ensures
        r@ == range_seq(from as int, to as int),
{
    let mut out: Vec<usize> = Vec::with_capacity(to - from);
    let mut i: usize = from;
    while i < to
        invariant
            from <= i <= to,
            out@ == range_seq(from as int, i as int),
        decreases to - i,
    {
        out.push(i);
        assert(out@ =~= range_seq(from as int, i + 1));
        i += 1;
    }
    out
}

impl R1CSFile {
    /// Whether the numbers of public wires fit the machine.
    pub open spec fn fits(&self) -> bool {
        1 + self.header.n_pub_out + self.header.n_pub_in <= usize::MAX
    }

    /// Converts the file to the circuit that the prover and the verifier
    /// take. Wire 0 is the constant one; the public outputs are the wires
    /// after it, and the public inputs the wires after those.
    pub fn to_crate_format(self) -> (r: R1CSWithMetadata<Fr>)
        requires
            self.fits(),
        ensures
            r.r1cs.a_rows@ == self.constraints.a_rows@,
            r.r1cs.b_rows@ == self.constraints.b_rows@,
            r.r1cs.c_rows@ == self.constraints.c_rows@,
            r.public_outputs_indices@ == range_seq(1, 1 + self.header.n_pub_out),
            r.public_inputs_indices@ == range_seq(
                1 + self.header.n_pub_out,
                1 + self.header.n_pub_out + self.header.n_pub_in,
            ),
            r.unpadded_wtns_len == self.header.n_wires,
    {
        let pub_in_start: usize = 1 + self.header.n_pub_out as usize;
        let public_outputs_indices: Vec<usize> = range_vec(1, pub_in_start);
        let public_inputs_indices: Vec<usize> = range_vec(
            pub_in_start,
            pub_in_start + self.header.n_pub_in as usize,
        );
        let unpadded_wtns_len: usize = self.header.n_wires as usize;
        R1CSWithMetadata {
            r1cs: R1CS {
                a_rows: self.constraints.a_rows,
                b_rows: self.constraints.b_rows,
                c_rows: self.constraints.c_rows,
            },
            public_inputs_indices,
            public_outputs_indices,
            unpadded_wtns_len,
        }
    }
}

/// The first `n` values of a witness whose values start at `at`, each below
/// the modulus.
pub open spec fn values_at(b: Seq<u8>, at: int, n: nat) -> Result<Seq<int>, ParseError>
    decreases n,
{
    if n == 0 {
        Ok(Seq::empty())
    } else {
        match values_at(b, at, (n - 1) as nat) {
            Err(e) => Err(e),
            Ok(before) => {
                let pos = at + 32 * (n - 1);
                if pos + 32 > b.len() {
                    Err(ParseError::UnexpectedEnd)
                } else if le_value(b.subrange(pos, pos + 32)) >= bn254_modulus() {
                    Err(ParseError::NonCanonicalElement)
                } else {
                    Ok(before.push(le_value(b.subrange(pos, pos + 32))))
                }
            },
        }
    }
}

/// The witness that the bytes of a file of circom's witness format hold: the
/// magic bytes `wtns`, version 2 and a count of sections; a first section
/// with the size of a field element, the modulus and the number of values;
/// and a second section with the values.
pub open spec fn witness_parsed(b: Seq<u8>) -> Result<Seq<int>, ParseError> {
    if b.len() < 4 {
        Err(ParseError::UnexpectedEnd)
    } else if b.subrange(0, 4) != seq![0x77u8, 0x74u8, 0x6eu8, 0x73u8] {
        Err(ParseError::InvalidMagic)
    } else {
        match (u32_at(b, 4), u32_at(b, 8), u32_at(b, 12), u64_at(b, 16), u32_at(b, 24)) {
            (Some(version), Some(_), Some(first), Some(size), Some(field_size)) => {
                if version != 2 {
                    Err(ParseError::UnsupportedVersion)
                } else if first != 1 {
                    Err(ParseError::MissingSection)
                } else if field_size != 32 {
                    Err(ParseError::UnsupportedFieldSize)
                } else if size != 40 {
                    Err(ParseError::InvalidHeaderSize)
                } else if b.len() < 60 {
                    Err(ParseError::UnexpectedEnd)
                } else if b.subrange(28, 60) != bn254_prime_le() {
                    Err(ParseError::UnsupportedPrime)
                } else {
                    match (u32_at(b, 60), u32_at(b, 64), u64_at(b, 68)) {
                        (Some(count), Some(second), Some(values_size)) => {
                            if second != 2 {
                                Err(ParseError::MissingSection)
                            } else if values_size != 32 * count {
                                Err(ParseError::InvalidWitnessSize)
                            } else {
                                values_at(b, 76, count as nat)
                            }
                        },
                        _ => Err(ParseError::UnexpectedEnd),
                    }
                }
            },
            _ => Err(ParseError::UnexpectedEnd),
        }
    }
}

/// Once a value is in error, the witness is in that error however many
/// values it announces.
proof fn lemma_values_stay_err(b: Seq<u8>, at: int, n: nat, more: nat)
    requires
        n <= more,
        values_at(b, at, n) is Err,
    ensures
        values_at(b, at, more) == values_at(b, at, n),
    decreases more,
{
    if more > n {
        lemma_values_stay_err(b, at, n, (more - 1) as nat);
    }
}

/// Parses the bytes of a file in circom's witness format.
pub fn wtns_from_reader(bytes: &[u8]) -> (r: Result<FVec<Fr>, ParseError>)
    ensures
        match r {
            Ok(w) => witness_parsed(bytes@) == Ok::<Seq<int>, ParseError>(w@),
            Err(e) => witness_parsed(bytes@) == Err::<Seq<int>, ParseError>(e),
        },
{
    let len: usize = bytes.len();
    if len < 4 {
        return Err(ParseError::UnexpectedEnd);
    }
    if bytes[0] != 0x77 || bytes[1] != 0x74 || bytes[2] != 0x6e || bytes[3] != 0x73 {
        assert(bytes@.subrange(0, 4)[0] == bytes@[0]);
        assert(bytes@.subrange(0, 4)[1] == bytes@[1]);
        assert(bytes@.subrange(0, 4)[2] == bytes@[2]);
        assert(bytes@.subrange(0, 4)[3] == bytes@[3]);
        return Err(ParseError::InvalidMagic);
    }
    assert(bytes@.subrange(0, 4) =~= seq![0x77u8, 0x74u8, 0x6eu8, 0x73u8]);
    if len < 28 {
        return Err(ParseError::UnexpectedEnd);
    }
    let version: u32 = read_u32_le(bytes, 4);
    let first: u32 = read_u32_le(bytes, 12);
    let size: u64 = read_u64_le(bytes, 16);
    let field_size: u32 = read_u32_le(bytes, 24);
    if version != 2 {
        return Err(ParseError::UnsupportedVersion);
    }
    if first != 1 {
        return Err(ParseError::MissingSection);
    }
    if field_size != 32 {
        return Err(ParseError::UnsupportedFieldSize);
    }
    if size != 40 {
        return Err(ParseError::InvalidHeaderSize);
    }
    if len < 60 {
        return Err(ParseError::UnexpectedEnd);
    }
    let mut prime: Vec<u8> = Vec::with_capacity(32);
    let mut i: usize = 28;
    while i < 60
        invariant
            28 <= i <= 60,
            60 <= bytes@.len(),
            prime@ == bytes@.subrange(28, i as int),
        decreases 60 - i,
    {
        prime.push(bytes[i]);
        assert(bytes@.subrange(28, i + 1) =~= bytes@.subrange(28, i as int).push(
            bytes@[i as int],
        ));
        i += 1;
    }
    if !is_bn254_prime(&prime) {
        return Err(ParseError::UnsupportedPrime);
    }
    if len < 76 {
        return Err(ParseError::UnexpectedEnd);
    }
    let count: u32 = read_u32_le(bytes, 60);
    let second: u32 = read_u32_le(bytes, 64);
    let values_size: u64 = read_u64_le(bytes, 68);
    if second != 2 {
        return Err(ParseError::MissingSection);
    }
    if values_size != 32 * (count as u64) {
        return Err(ParseError::InvalidWitnessSize);
    }
    let mut values: Vec<Fr> = Vec::new();
    let mut pos: usize = 76;
    let mut k: u32 = 0;
    assert(residues(values@) =~= Seq::<int>::empty());
    assert(witness_parsed(bytes@) == values_at(bytes@, 76, count as nat));
    while k < count
        invariant
            k <= count,
            len == bytes@.len(),
            witness_parsed(bytes@) == values_at(bytes@, 76, count as nat),
            76 <= pos <= len,
            pos == 76 + 32 * k,
            values_at(bytes@, 76, k as nat) == Ok::<Seq<int>, ParseError>(residues(values@)),
        decreases count - k,
    {
        if len - pos < 32 {
            proof {
                assert(values_at(bytes@, 76, (k + 1) as nat) == Err::<Seq<int>, ParseError>(
                    ParseError::UnexpectedEnd,
                ));
                lemma_values_stay_err(bytes@, 76, (k + 1) as nat, count as nat);
            }
            return Err(ParseError::UnexpectedEnd);
        }
        let value: Fr = match Fr::from_le_bytes(bytes, pos) {
            Some(x) => x,
            None => {
                proof {
                    assert(values_at(bytes@, 76, (k + 1) as nat) == Err::<Seq<int>, ParseError>(
                        ParseError::NonCanonicalElement,
                    ));
                    lemma_values_stay_err(bytes@, 76, (k + 1) as nat, count as nat);
                }
                return Err(ParseError::NonCanonicalElement);
            },
        };
        let ghost before: Seq<int> = residues(values@);
        values.push(value);
        assert(residues(values@) =~= before.push(value.value()));
        pos += 32;
        k += 1;
    }
    Ok(FVec(values))
}

} // verus!
