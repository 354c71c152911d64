//! Loading of the three line formats, the eager validation, and the
//! canonical partition.

use arkworks_bridge::errors::BridgeError;
use arkworks_bridge::field::parse_field_element;
use arkworks_bridge::header::parse_header_line;
use arkworks_bridge::inputs::parse_inputs_file;
use arkworks_bridge::r1cs::{parse_r1cs_file, R1CS};
use arkworks_bridge::witness::{parse_witness_file, Witness};

fn header_line(inputs: &str, n_constraints: usize, n_variables: usize) -> String {
    format!(
        "{{\"extension_degree\": 1, \"field_characteristic\": \"101\", \"input_variables\": {}, \"n_constraints\": {}, \"n_variables\": {}, \"output_variables\": []}}",
        inputs, n_constraints, n_variables
    )
}

#[test]
fn header_parses_with_keys_in_any_order() {
    let line = "{\"n_variables\": 5, \"output_variables\": [4], \"input_variables\": [2, 4], \"field_characteristic\": \"101\", \"n_constraints\": 0, \"extension_degree\": 1}";
    let h = parse_header_line(line.as_bytes()).unwrap();
    assert_eq!(h.extension_degree, 1);
    assert_eq!(h.field_characteristic, b"101".to_vec());
    assert_eq!(h.input_variables, vec![2, 4]);
    assert_eq!(h.n_constraints, 0);
    assert_eq!(h.n_variables, 5);
    assert_eq!(h.output_variables, vec![4]);
}

#[test]
fn header_rejects_duplicate_key() {
    let line = "{\"extension_degree\": 1, \"extension_degree\": 2, \"field_characteristic\": \"7\", \"input_variables\": [], \"n_constraints\": 0, \"n_variables\": 1, \"output_variables\": []}";
    assert!(parse_header_line(line.as_bytes()).is_none());
}

#[test]
fn header_rejects_missing_key() {
    let line = "{\"extension_degree\": 1, \"input_variables\": [], \"n_constraints\": 0, \"n_variables\": 1, \"output_variables\": []}";
    assert!(parse_header_line(line.as_bytes()).is_none());
}

#[test]
fn header_rejects_unknown_key() {
    let line = "{\"extension_degree\": 1, \"padding\": 7, \"field_characteristic\": \"7\", \"input_variables\": [], \"n_constraints\": 0, \"n_variables\": 1, \"output_variables\": []}";
    assert!(parse_header_line(line.as_bytes()).is_none());
}

#[test]
fn header_rejects_bad_characteristic() {
    let line = "{\"extension_degree\": 1, \"field_characteristic\": \"7a\", \"input_variables\": [], \"n_constraints\": 0, \"n_variables\": 1, \"output_variables\": []}";
    assert!(parse_header_line(line.as_bytes()).is_none());
}

#[test]
fn empty_file_is_truncated() {
    assert!(parse_r1cs_file(b"") == Err(BridgeError::TruncatedFile));
    assert!(parse_witness_file(b"") == Err(BridgeError::TruncatedFile));
}

#[test]
fn header_only_file_loads_with_no_constraints() {
    let file = header_line("[2, 4]", 0, 5);
    let loaded = parse_r1cs_file(file.as_bytes()).unwrap();
    assert_eq!(loaded.constraints.len(), 0);
    let descriptor = R1CS::from(loaded);
    assert_eq!(descriptor.input_variables, vec![2, 4]);
    assert_eq!(descriptor.witness_variables, vec![1, 3]);
    assert_eq!(descriptor.constraints.len(), 0);
}

#[test]
fn partition_sorts_declared_inputs() {
    let file = format!("{}\n", header_line("[4, 2]", 0, 5));
    let descriptor = R1CS::from(parse_r1cs_file(file.as_bytes()).unwrap());
    assert_eq!(descriptor.input_variables, vec![2, 4]);
    assert_eq!(descriptor.witness_variables, vec![1, 3]);
}

#[test]
fn constraint_rows_load_in_file_order() {
    let file = format!(
        "{}\n{}\n{}\n",
        header_line("[1]", 2, 4),
        "{\"A\": [[\"1\", 1]], \"B\": [[\"1\", 2]], \"C\": [[\"1\", 3]]}",
        "{\"A\": [[\"2\", 0], [\"3\", 1]], \"B\": [], \"C\": [[\"5\", 2]]}",
    );
    let loaded = parse_r1cs_file(file.as_bytes()).unwrap();
    assert_eq!(loaded.constraints.len(), 2);
    assert_eq!(loaded.constraints[0].a.len(), 1);
    assert_eq!(loaded.constraints[0].a[0].1, 1);
    assert_eq!(loaded.constraints[1].a.len(), 2);
    assert_eq!(loaded.constraints[1].b.len(), 0);
    let two = parse_field_element(b"2").unwrap();
    assert!(loaded.constraints[1].a[0].0 == two);
}

#[test]
fn row_index_at_variable_count_is_rejected() {
    // A reference equal to n_variables must fail at load, not at synthesis.
    let file = format!(
        "{}\n{}\n",
        header_line("[1]", 1, 4),
        "{\"A\": [[\"1\", 4]], \"B\": [], \"C\": []}",
    );
    assert!(parse_r1cs_file(file.as_bytes()) == Err(BridgeError::InconsistentVariableCount));
}

#[test]
fn header_input_out_of_range_is_rejected() {
    let file = header_line("[5]", 0, 5);
    assert!(parse_r1cs_file(file.as_bytes()) == Err(BridgeError::InconsistentVariableCount));
}

#[test]
fn header_duplicate_input_is_rejected() {
    let file = header_line("[2, 2]", 0, 5);
    assert!(parse_r1cs_file(file.as_bytes()) == Err(BridgeError::InconsistentVariableCount));
}

#[test]
fn malformed_row_names_its_line() {
    let file = format!(
        "{}\n{}\n{}\n",
        header_line("[1]", 2, 4),
        "{\"A\": [], \"B\": [], \"C\": []}",
        "{\"A\": [], \"B\": []}",
    );
    assert!(parse_r1cs_file(file.as_bytes()) == Err(BridgeError::MalformedRecord(3)));
}

#[test]
fn bad_coefficient_fails_as_field_element() {
    let file = format!(
        "{}\n{}\n",
        header_line("[1]", 1, 4),
        "{\"A\": [[\"01\", 1]], \"B\": [], \"C\": []}",
    );
    assert!(parse_r1cs_file(file.as_bytes()) == Err(BridgeError::InvalidFieldElement));
}

#[test]
fn empty_payload_lines_are_skipped() {
    let file = format!(
        "{}\n\n{}\n\n",
        header_line("[1]", 1, 4),
        "{\"A\": [[\"1\", 1]], \"B\": [], \"C\": []}",
    );
    let loaded = parse_r1cs_file(file.as_bytes()).unwrap();
    assert_eq!(loaded.constraints.len(), 1);
}

#[test]
fn loading_twice_yields_identical_structures() {
    let file = format!(
        "{}\n{}\n",
        header_line("[2]", 1, 4),
        "{\"A\": [[\"7\", 1], [\"7\", 1]], \"B\": [[\"1\", 0]], \"C\": [[\"9\", 3]]}",
    );
    let first = parse_r1cs_file(file.as_bytes()).unwrap();
    let second = parse_r1cs_file(file.as_bytes()).unwrap();
    assert!(first == second);
    assert!(R1CS::from(first) == R1CS::from(second));

    let wfile = format!("{}\n[1, \"3\"]\n[2, \"5\"]\n", header_line("[2]", 0, 4));
    let w1 = parse_witness_file(wfile.as_bytes()).unwrap();
    let w2 = parse_witness_file(wfile.as_bytes()).unwrap();
    assert!(w1 == w2);
}

#[test]
fn witness_file_loads_pairs() {
    let wfile = format!(
        "{}\n[1, \"3\"]\n[2, \"5\"]\n",
        header_line("[2, 4]", 0, 5)
    );
    let loaded = parse_witness_file(wfile.as_bytes()).unwrap();
    assert_eq!(loaded.witness.len(), 2);
    assert_eq!(loaded.witness[0].0, 1);
    assert_eq!(loaded.witness[1].0, 2);
}

#[test]
fn witness_partition_follows_the_header() {
    // Inputs [2, 4] and entries for 1..=4: values 2 and 4 become inputs,
    // 1 and 3 become witnesses, and index 0 is dropped.
    let wfile = format!(
        "{}\n[0, \"1\"]\n[1, \"11\"]\n[2, \"12\"]\n[3, \"13\"]\n[4, \"14\"]\n",
        header_line("[2, 4]", 0, 5)
    );
    let loaded = parse_witness_file(wfile.as_bytes()).unwrap();
    let witness = Witness::from(loaded);
    assert_eq!(witness.input_variables.len(), 2);
    assert_eq!(witness.witness_variables.len(), 2);
    let v12 = parse_field_element(b"12").unwrap();
    let v14 = parse_field_element(b"14").unwrap();
    let v11 = parse_field_element(b"11").unwrap();
    let v13 = parse_field_element(b"13").unwrap();
    assert!(*witness.input_variables.get(&2).unwrap() == v12);
    assert!(*witness.input_variables.get(&4).unwrap() == v14);
    assert!(*witness.witness_variables.get(&1).unwrap() == v11);
    assert!(*witness.witness_variables.get(&3).unwrap() == v13);
    assert!(!witness.input_variables.contains_key(&0));
    assert!(!witness.witness_variables.contains_key(&0));
}

#[test]
fn witness_rows_of_bad_shape_name_their_line() {
    let wfile = format!("{}\n[1]\n", header_line("[2]", 0, 3));
    assert!(parse_witness_file(wfile.as_bytes()) == Err(BridgeError::MalformedRecord(2)));
}

#[test]
fn inputs_file_has_no_header() {
    let file = "[2, \"12\"]\n[4, \"14\"]\n";
    let inputs = parse_inputs_file(file.as_bytes()).unwrap();
    assert_eq!(inputs.inputs.len(), 2);
    assert_eq!(inputs.inputs[0].0, 2);
}

#[test]
fn empty_inputs_file_is_empty() {
    let inputs = parse_inputs_file(b"").unwrap();
    assert_eq!(inputs.inputs.len(), 0);
}

#[test]
fn input_values_are_sorted_by_index_not_file_order() {
    let file = "[4, \"14\"]\n[2, \"12\"]\n[3, \"13\"]\n";
    let inputs = parse_inputs_file(file.as_bytes()).unwrap();
    let values = inputs.sorted_values();
    let v12 = parse_field_element(b"12").unwrap();
    let v13 = parse_field_element(b"13").unwrap();
    let v14 = parse_field_element(b"14").unwrap();
    assert_eq!(values.len(), 3);
    assert!(values[0] == v12);
    assert!(values[1] == v13);
    assert!(values[2] == v14);
}

#[test]
fn carriage_returns_are_stripped() {
    let file = format!(
        "{}\r\n{}\r\n",
        header_line("[1]", 1, 4),
        "{\"A\": [[\"1\", 1]], \"B\": [], \"C\": []}",
    );
    let loaded = parse_r1cs_file(file.as_bytes()).unwrap();
    assert_eq!(loaded.constraints.len(), 1);
}

#[test]
fn json_whitespace_is_insignificant() {
    let file = "  { \"extension_degree\" : 1 ,\t\"field_characteristic\": \"101\", \"input_variables\": [ 1 , 2 ], \"n_constraints\": 0, \"n_variables\": 4, \"output_variables\": [ ] }  ";
    let h = parse_header_line(file.as_bytes()).unwrap();
    assert_eq!(h.input_variables, vec![1, 2]);
}

#[test]
fn oversized_count_is_a_malformed_header() {
    // A count beyond 64 bits cannot be represented.
    let line = "{\"extension_degree\": 1, \"field_characteristic\": \"101\", \"input_variables\": [], \"n_constraints\": 0, \"n_variables\": 99999999999999999999, \"output_variables\": []}";
    assert!(parse_header_line(line.as_bytes()).is_none());
    assert!(parse_r1cs_file(line.as_bytes()) == Err(BridgeError::MalformedHeader));
}

#[test]
fn sorting_keeps_file_order_of_equal_indices() {
    let file = "[2, \"7\"]\n[1, \"5\"]\n[2, \"9\"]\n";
    let inputs = parse_inputs_file(file.as_bytes()).unwrap();
    let values = inputs.sorted_values();
    let v5 = parse_field_element(b"5").unwrap();
    let v7 = parse_field_element(b"7").unwrap();
    let v9 = parse_field_element(b"9").unwrap();
    assert_eq!(values.len(), 3);
    assert!(values[0] == v5);
    assert!(values[1] == v7);
    assert!(values[2] == v9);
}
