//! Driving the external constraint-system builder: structure, values and
//! failure modes.

use arkworks_bridge::builder::SystemBuilder;
use arkworks_bridge::circuit::Circuit;
use arkworks_bridge::errors::BridgeError;
use arkworks_bridge::field::parse_field_element;
use arkworks_bridge::r1cs::{parse_r1cs_file, R1CS};
use arkworks_bridge::witness::{parse_witness_file, Witness};

fn header_line(inputs: &str, n_constraints: usize, n_variables: usize) -> String {
    format!(
        "{{\"extension_degree\": 1, \"field_characteristic\": \"101\", \"input_variables\": {}, \"n_constraints\": {}, \"n_variables\": {}, \"output_variables\": []}}",
        inputs, n_constraints, n_variables
    )
}

/// The multiplication circuit: one constraint, variable 1 times variable 2
/// equals variable 3, all three private.
fn product_descriptor() -> R1CS {
    let file = format!(
        "{}\n{}\n",
        header_line("[]", 1, 4),
        "{\"A\": [[\"1\", 1]], \"B\": [[\"1\", 2]], \"C\": [[\"1\", 3]]}",
    );
    R1CS::from(parse_r1cs_file(file.as_bytes()).unwrap())
}

fn product_witness(last: &str) -> Witness {
    let wfile = format!(
        "{}\n[1, \"3\"]\n[2, \"5\"]\n[3, \"{}\"]\n",
        header_line("[]", 1, 4),
        last
    );
    Witness::from(parse_witness_file(wfile.as_bytes()).unwrap())
}

#[test]
fn satisfying_witness_is_accepted() {
    let circuit = Circuit {
        r1cs: product_descriptor(),
        witness: Some(product_witness("15")),
    };
    let mut builder = SystemBuilder::new();
    assert!(circuit.generate_constraints(&mut builder).is_ok());
    assert_eq!(builder.is_satisfied(), Some(true));
}

#[test]
fn non_satisfying_witness_is_reported() {
    let circuit = Circuit {
        r1cs: product_descriptor(),
        witness: Some(product_witness("16")),
    };
    let mut builder = SystemBuilder::new();
    assert!(circuit.generate_constraints(&mut builder).is_ok());
    assert_eq!(builder.is_satisfied(), Some(false));
}

#[test]
fn setup_and_prove_synthesis_are_structurally_identical() {
    // The same descriptor, synthesized without and with a witness, must
    // allocate identical variable counts and constraint counts.
    let bare = Circuit {
        r1cs: product_descriptor(),
        witness: None,
    };
    let full = Circuit {
        r1cs: product_descriptor(),
        witness: Some(product_witness("15")),
    };
    let mut b1 = SystemBuilder::new();
    let mut b2 = SystemBuilder::new();
    assert!(bare.generate_constraints(&mut b1).is_ok());
    assert!(full.generate_constraints(&mut b2).is_ok());
    assert_eq!(b1.num_instance_variables(), b2.num_instance_variables());
    assert_eq!(b1.num_witness_variables(), b2.num_witness_variables());
    assert_eq!(b1.num_constraints(), b2.num_constraints());
}

#[test]
fn counts_follow_the_descriptor() {
    let file = format!(
        "{}\n{}\n{}\n",
        header_line("[2, 4]", 2, 5),
        "{\"A\": [[\"1\", 2]], \"B\": [[\"1\", 4]], \"C\": [[\"1\", 1]]}",
        "{\"A\": [], \"B\": [], \"C\": []}",
    );
    let descriptor = R1CS::from(parse_r1cs_file(file.as_bytes()).unwrap());
    let circuit = Circuit {
        r1cs: descriptor,
        witness: None,
    };
    let mut builder = SystemBuilder::new();
    assert!(circuit.generate_constraints(&mut builder).is_ok());
    // One built-in instance (the constant one) plus the two declared inputs.
    assert_eq!(builder.num_instance_variables(), 3);
    assert_eq!(builder.num_witness_variables(), 2);
    assert_eq!(builder.num_constraints(), 2);
}

#[test]
fn missing_witness_value_names_the_first_missing_variable() {
    // The witness assigns variables 1 and 2 but not 3.
    let wfile = format!(
        "{}\n[1, \"3\"]\n[2, \"5\"]\n",
        header_line("[]", 1, 4)
    );
    let witness = Witness::from(parse_witness_file(wfile.as_bytes()).unwrap());
    let circuit = Circuit {
        r1cs: product_descriptor(),
        witness: Some(witness),
    };
    let mut builder = SystemBuilder::new();
    assert_eq!(
        circuit.generate_constraints(&mut builder),
        Err(BridgeError::MissingWitnessValue(3))
    );
}

#[test]
fn unknown_constraint_index_aborts_synthesis() {
    // A hand-built descriptor whose row references an index no list holds.
    let one = parse_field_element(b"1").unwrap();
    let descriptor = R1CS {
        input_variables: vec![],
        witness_variables: vec![1],
        constraints: vec![arkworks_bridge::r1cs::R1C {
            a: vec![(one, 7)],
            b: vec![],
            c: vec![],
        }],
    };
    let circuit = Circuit {
        r1cs: descriptor,
        witness: None,
    };
    let mut builder = SystemBuilder::new();
    assert_eq!(
        circuit.generate_constraints(&mut builder),
        Err(BridgeError::UnknownVariableIndex(7))
    );
}

#[test]
fn constant_one_variable_carries_affine_terms() {
    // Enforce x * 1 = 5 with x = 5, using index 0 for the constant.
    let file = format!(
        "{}\n{}\n",
        header_line("[]", 1, 2),
        "{\"A\": [[\"1\", 1]], \"B\": [[\"1\", 0]], \"C\": [[\"5\", 0]]}",
    );
    let descriptor = R1CS::from(parse_r1cs_file(file.as_bytes()).unwrap());
    let wfile = format!("{}\n[1, \"5\"]\n", header_line("[]", 1, 2));
    let witness = Witness::from(parse_witness_file(wfile.as_bytes()).unwrap());
    let circuit = Circuit {
        r1cs: descriptor,
        witness: Some(witness),
    };
    let mut builder = SystemBuilder::new();
    assert!(circuit.generate_constraints(&mut builder).is_ok());
    assert_eq!(builder.is_satisfied(), Some(true));
}

#[test]
fn duplicate_indices_within_a_combination_accumulate() {
    // Enforce (x + x) * 1 = 10 with x = 5: the duplicated term must sum.
    let file = format!(
        "{}\n{}\n",
        header_line("[]", 1, 2),
        "{\"A\": [[\"1\", 1], [\"1\", 1]], \"B\": [[\"1\", 0]], \"C\": [[\"10\", 0]]}",
    );
    let descriptor = R1CS::from(parse_r1cs_file(file.as_bytes()).unwrap());
    let wfile = format!("{}\n[1, \"5\"]\n", header_line("[]", 1, 2));
    let witness = Witness::from(parse_witness_file(wfile.as_bytes()).unwrap());
    let circuit = Circuit {
        r1cs: descriptor,
        witness: Some(witness),
    };
    let mut builder = SystemBuilder::new();
    assert!(circuit.generate_constraints(&mut builder).is_ok());
    assert_eq!(builder.is_satisfied(), Some(true));
}

#[test]
fn well_formedness_is_decidable() {
    let descriptor = product_descriptor();
    assert!(descriptor.is_well_formed());
    let one = parse_field_element(b"1").unwrap();
    let broken = R1CS {
        input_variables: vec![2, 2],
        witness_variables: vec![1],
        constraints: vec![arkworks_bridge::r1cs::R1C {
            a: vec![(one, 1)],
            b: vec![],
            c: vec![],
        }],
    };
    assert!(!broken.is_well_formed());
}
