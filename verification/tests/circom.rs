use volonym::circom::{wtns_from_reader, ParseError, R1CSFile};
use volonym::{Fr, PF};

const PRIME_LE: [u8; 32] = [
    1, 0, 0, 240, 147, 245, 225, 67, 145, 112, 185, 121, 72, 232, 51, 40, 93, 88, 129, 129, 182, 69,
    80, 184, 41, 160, 49, 225, 114, 78, 100, 48,
];

fn element(x: u64) -> Vec<u8> {
    let mut out = vec![0u8; 32];
    out[0..8].copy_from_slice(&x.to_le_bytes());
    out
}

fn sparse_bytes(entries: &[(u32, u64)]) -> Vec<u8> {
    let mut out = Vec::new();
    out.extend_from_slice(&(entries.len() as u32).to_le_bytes());
    for (column, value) in entries {
        out.extend_from_slice(&column.to_le_bytes());
        out.extend_from_slice(&element(*value));
    }
    out
}

fn header_bytes(n_wires: u32, n_pub_out: u32, n_pub_in: u32, n_constraints: u32) -> Vec<u8> {
    let mut out = Vec::new();
    out.extend_from_slice(&32u32.to_le_bytes());
    out.extend_from_slice(&PRIME_LE);
    out.extend_from_slice(&n_wires.to_le_bytes());
    out.extend_from_slice(&n_pub_out.to_le_bytes());
    out.extend_from_slice(&n_pub_in.to_le_bytes());
    out.extend_from_slice(&1u32.to_le_bytes());
    out.extend_from_slice(&(n_wires as u64).to_le_bytes());
    out.extend_from_slice(&n_constraints.to_le_bytes());
    out
}

fn section(kind: u32, content: &[u8]) -> Vec<u8> {
    let mut out = Vec::new();
    out.extend_from_slice(&kind.to_le_bytes());
    out.extend_from_slice(&(content.len() as u64).to_le_bytes());
    out.extend_from_slice(content);
    out
}

fn file_of(sections: &[Vec<u8>]) -> Vec<u8> {
    let mut out = Vec::new();
    out.extend_from_slice(b"r1cs");
    out.extend_from_slice(&1u32.to_le_bytes());
    out.extend_from_slice(&(sections.len() as u32).to_le_bytes());
    for s in sections {
        out.extend_from_slice(s);
    }
    out
}

/// `out = in * in * in` over the wires `[1, out, in, in * in]`.
fn cube_constraints() -> Vec<u8> {
    let mut out = Vec::new();
    out.extend(sparse_bytes(&[(2, 1)]));
    out.extend(sparse_bytes(&[(2, 1)]));
    out.extend(sparse_bytes(&[(3, 1)]));
    out.extend(sparse_bytes(&[(3, 1)]));
    out.extend(sparse_bytes(&[(2, 1)]));
    out.extend(sparse_bytes(&[(1, 1)]));
    out
}

fn wire_map(n: u64) -> Vec<u8> {
    (0..n).flat_map(|i| i.to_le_bytes()).collect()
}

fn cube_file() -> Vec<u8> {
    file_of(&[
        section(2, &cube_constraints()),
        section(1, &header_bytes(4, 1, 1, 2)),
        section(3, &wire_map(4)),
    ])
}

#[test]
fn read_r1cs_file() {
    let file = R1CSFile::from_reader(&cube_file()).unwrap();
    assert_eq!(file.version, 1);
    assert_eq!(file.header.field_size, 32);
    assert_eq!(file.header.prime_size, PRIME_LE.to_vec());
    assert_eq!(file.header.n_wires, 4);
    assert_eq!(file.header.n_pub_out, 1);
    assert_eq!(file.header.n_pub_in, 1);
    assert_eq!(file.header.n_prv_in, 1);
    assert_eq!(file.header.n_labels, 4);
    assert_eq!(file.header.n_constraints, 2);
    assert_eq!(file.wire_mapping, vec![0, 1, 2, 3]);
    assert_eq!(file.constraints.a_rows.0.len(), 2);
    assert_eq!(file.constraints.a_rows.0[0].0, vec![(2, Fr::one())]);
    assert_eq!(file.constraints.c_rows.0[1].0, vec![(1, Fr::one())]);
}

#[test]
fn parsed_file_gives_a_circuit_that_proves() {
    let circuit = R1CSFile::from_reader(&cube_file()).unwrap().to_crate_format();
    assert_eq!(circuit.public_outputs_indices, vec![1]);
    assert_eq!(circuit.public_inputs_indices, vec![2]);
    assert_eq!(circuit.unpadded_wtns_len, 4);
    assert!(circuit.is_well_formed());
    assert!(circuit.fits_default_code());
    let witness = volonym::FVec(vec![
        Fr::one(),
        Fr::from_u64(27),
        Fr::from_u64(3),
        Fr::from_u64(9),
    ]);
    let opened = volonym::actors::e2e_test(witness, circuit).unwrap();
    assert_eq!(opened.public_outputs, vec![Fr::from_u64(27)]);
    assert_eq!(opened.public_inputs, vec![Fr::from_u64(3)]);
}

#[test]
fn correct_public_indices() {
    let bytes = file_of(&[
        section(1, &header_bytes(300, 257, 2, 0)),
        section(2, &[]),
        section(3, &wire_map(300)),
    ]);
    let circuit = R1CSFile::from_reader(&bytes).unwrap().to_crate_format();
    assert!(circuit.public_outputs_indices == (1..258).collect::<Vec<usize>>());
    assert!(circuit.public_inputs_indices == (258..260).collect::<Vec<usize>>());
}

#[test]
fn rejects_a_wrong_magic_number() {
    let mut bytes = cube_file();
    bytes[0] = b'x';
    assert_eq!(R1CSFile::from_reader(&bytes).err(), Some(ParseError::InvalidMagic));
    assert_eq!(R1CSFile::from_reader(b"r1c").err(), Some(ParseError::UnexpectedEnd));
    assert_eq!(R1CSFile::from_reader(b"r1cs").err(), Some(ParseError::UnexpectedEnd));
}

#[test]
fn rejects_another_version() {
    let mut bytes = cube_file();
    bytes[4] = 2;
    assert_eq!(R1CSFile::from_reader(&bytes).err(), Some(ParseError::UnsupportedVersion));
}

#[test]
fn rejects_missing_sections() {
    let bytes = file_of(&[section(1, &header_bytes(4, 1, 1, 2)), section(3, &wire_map(4))]);
    assert_eq!(R1CSFile::from_reader(&bytes).err(), Some(ParseError::MissingSection));
    let bytes = file_of(&[section(2, &cube_constraints()), section(3, &wire_map(4))]);
    assert_eq!(R1CSFile::from_reader(&bytes).err(), Some(ParseError::MissingSection));
    let bytes = file_of(&[section(2, &cube_constraints()), section(1, &header_bytes(4, 1, 1, 2))]);
    assert_eq!(R1CSFile::from_reader(&bytes).err(), Some(ParseError::MissingSection));
}

#[test]
fn rejects_a_header_of_the_wrong_size() {
    let mut header = header_bytes(4, 1, 1, 2);
    header.push(0);
    let bytes =
        file_of(&[section(1, &header), section(2, &cube_constraints()), section(3, &wire_map(4))]);
    assert_eq!(R1CSFile::from_reader(&bytes).err(), Some(ParseError::InvalidHeaderSize));
}

#[test]
fn rejects_another_field() {
    let mut header = header_bytes(4, 1, 1, 2);
    header[4] = 3;
    let bytes =
        file_of(&[section(1, &header), section(2, &cube_constraints()), section(3, &wire_map(4))]);
    assert_eq!(R1CSFile::from_reader(&bytes).err(), Some(ParseError::UnsupportedPrime));
    // A field of 31 bytes: the header has the size that goes with it.
    let mut header = Vec::new();
    header.extend_from_slice(&31u32.to_le_bytes());
    header.extend_from_slice(&[7u8; 31]);
    header.extend_from_slice(&[0u8; 28]);
    let bytes =
        file_of(&[section(1, &header), section(2, &cube_constraints()), section(3, &wire_map(4))]);
    assert_eq!(R1CSFile::from_reader(&bytes).err(), Some(ParseError::UnsupportedFieldSize));
}

#[test]
fn rejects_a_coefficient_that_is_not_below_the_modulus() {
    let mut constraints = cube_constraints();
    // The coefficient of the first entry becomes the modulus itself.
    constraints[8..40].copy_from_slice(&PRIME_LE);
    let bytes = file_of(&[
        section(1, &header_bytes(4, 1, 1, 2)),
        section(2, &constraints),
        section(3, &wire_map(4)),
    ]);
    assert_eq!(R1CSFile::from_reader(&bytes).err(), Some(ParseError::NonCanonicalElement));
}

#[test]
fn rejects_a_wire_map_of_the_wrong_size_or_start() {
    let bytes = file_of(&[
        section(1, &header_bytes(4, 1, 1, 2)),
        section(2, &cube_constraints()),
        section(3, &wire_map(3)),
    ]);
    assert_eq!(R1CSFile::from_reader(&bytes).err(), Some(ParseError::InvalidMapSize));
    let mut map = wire_map(4);
    map[0] = 1;
    let bytes = file_of(&[
        section(1, &header_bytes(4, 1, 1, 2)),
        section(2, &cube_constraints()),
        section(3, &map),
    ]);
    assert_eq!(R1CSFile::from_reader(&bytes).err(), Some(ParseError::WireZeroNotMapped));
}

#[test]
fn rejects_a_file_that_ends_early() {
    let bytes = cube_file();
    // The constraints come first: cut within them.
    assert_eq!(R1CSFile::from_reader(&bytes[..40]).err(), Some(ParseError::UnexpectedEnd));
    let bytes = file_of(&[
        section(1, &header_bytes(4, 1, 1, 3)),
        section(3, &wire_map(4)),
        section(2, &cube_constraints()),
    ]);
    assert_eq!(R1CSFile::from_reader(&bytes).err(), Some(ParseError::UnexpectedEnd));
}

#[test]
fn later_section_of_a_type_replaces_the_earlier() {
    let bytes = file_of(&[
        section(1, &header_bytes(9, 1, 1, 2)),
        section(2, &cube_constraints()),
        section(9, &[1, 2, 3]),
        section(1, &header_bytes(4, 1, 1, 2)),
        section(3, &wire_map(4)),
    ]);
    assert_eq!(R1CSFile::from_reader(&bytes).unwrap().header.n_wires, 4);
}

fn witness_file(values: &[u64]) -> Vec<u8> {
    let mut out = Vec::new();
    out.extend_from_slice(b"wtns");
    out.extend_from_slice(&2u32.to_le_bytes());
    out.extend_from_slice(&2u32.to_le_bytes());
    out.extend_from_slice(&1u32.to_le_bytes());
    out.extend_from_slice(&40u64.to_le_bytes());
    out.extend_from_slice(&32u32.to_le_bytes());
    out.extend_from_slice(&PRIME_LE);
    out.extend_from_slice(&(values.len() as u32).to_le_bytes());
    out.extend_from_slice(&2u32.to_le_bytes());
    out.extend_from_slice(&(32 * values.len() as u64).to_le_bytes());
    for v in values {
        out.extend_from_slice(&element(*v));
    }
    out
}

#[test]
fn parses_a_witness() {
    let w = wtns_from_reader(&witness_file(&[1, 27, 3, 9])).unwrap();
    assert_eq!(
        w,
        volonym::FVec(vec![Fr::one(), Fr::from_u64(27), Fr::from_u64(3), Fr::from_u64(9)])
    );
    let empty = wtns_from_reader(&witness_file(&[])).unwrap();
    assert_eq!(empty.0.len(), 0);
}

#[test]
fn rejects_witnesses_that_are_not_well_formed() {
    let good = witness_file(&[1, 2]);
    let mut bytes = good.clone();
    bytes[0] = b'r';
    assert_eq!(wtns_from_reader(&bytes).err(), Some(ParseError::InvalidMagic));
    let mut bytes = good.clone();
    bytes[4] = 1;
    assert_eq!(wtns_from_reader(&bytes).err(), Some(ParseError::UnsupportedVersion));
    let mut bytes = good.clone();
    bytes[12] = 2;
    assert_eq!(wtns_from_reader(&bytes).err(), Some(ParseError::MissingSection));
    let mut bytes = good.clone();
    bytes[16] = 41;
    assert_eq!(wtns_from_reader(&bytes).err(), Some(ParseError::InvalidHeaderSize));
    let mut bytes = good.clone();
    bytes[24] = 31;
    assert_eq!(wtns_from_reader(&bytes).err(), Some(ParseError::UnsupportedFieldSize));
    let mut bytes = good.clone();
    bytes[28] = 3;
    assert_eq!(wtns_from_reader(&bytes).err(), Some(ParseError::UnsupportedPrime));
    let mut bytes = good.clone();
    bytes[68] = 63;
    assert_eq!(wtns_from_reader(&bytes).err(), Some(ParseError::InvalidWitnessSize));
    let mut bytes = good.clone();
    bytes[76..108].copy_from_slice(&PRIME_LE);
    assert_eq!(wtns_from_reader(&bytes).err(), Some(ParseError::NonCanonicalElement));
    assert_eq!(wtns_from_reader(&good[..100]).err(), Some(ParseError::UnexpectedEnd));
    assert_eq!(wtns_from_reader(&good[..30]).err(), Some(ParseError::UnexpectedEnd));
    assert_eq!(wtns_from_reader(&good[..3]).err(), Some(ParseError::UnexpectedEnd));
}

#[test]
fn every_parse_error_has_its_message() {
    assert_eq!(ParseError::UnexpectedEnd.message(), "failed to fill whole buffer");
    assert_eq!(ParseError::InvalidMagic.message(), "Invalid magic number");
    assert_eq!(ParseError::UnsupportedVersion.message(), "Unsupported version");
    assert_eq!(ParseError::MissingSection.message(), "A section of the file is missing");
    assert_eq!(ParseError::InvalidHeaderSize.message(), "Invalid header section size");
    assert_eq!(
        ParseError::UnsupportedFieldSize.message(),
        "This parser only supports 32-byte fields"
    );
    assert_eq!(ParseError::UnsupportedPrime.message(), "This parser only supports bn254");
    assert_eq!(
        ParseError::NonCanonicalElement.message(),
        "A field element is not below the modulus"
    );
    assert_eq!(ParseError::InvalidMapSize.message(), "Invalid map section size");
    assert_eq!(ParseError::WireZeroNotMapped.message(), "Wire 0 should always be mapped to 0");
    assert_eq!(ParseError::InvalidWitnessSize.message(), "Invalid witness section size");
    assert_eq!(
        R1CSFile::from_reader(b"r1cx0000").unwrap_err().message(),
        "Invalid magic number"
    );
}
