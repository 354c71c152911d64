//! A whole round through the proving backend: key generation from the bare
//! descriptor, proving with the witness, verification with the public
//! inputs.

use ark_bn254::Bn254;
use ark_crypto_primitives::snark::SNARK;
use ark_groth16::Groth16;
use ark_relations::r1cs::{ConstraintSynthesizer, ConstraintSystemRef, SynthesisError};
use rand::thread_rng;

use arkworks_bridge::builder::SystemBuilder;
use arkworks_bridge::circuit::Circuit;
use arkworks_bridge::inputs::parse_inputs_file;
use arkworks_bridge::r1cs::{parse_r1cs_file, R1CS};
use arkworks_bridge::witness::{parse_witness_file, Witness};

struct TestCircuit {
    circuit: Circuit,
}

impl ConstraintSynthesizer<ark_bn254::Fr> for TestCircuit {
    fn generate_constraints(
        self,
        cs: ConstraintSystemRef<ark_bn254::Fr>,
    ) -> Result<(), SynthesisError> {
        if !self.circuit.r1cs.is_well_formed() {
            return Err(SynthesisError::Unsatisfiable);
        }
        let mut builder = SystemBuilder { cs };
        self.circuit
            .generate_constraints(&mut builder)
            .map_err(|_| SynthesisError::AssignmentMissing)
    }
}

fn header_line(inputs: &str, n_constraints: usize, n_variables: usize) -> String {
    format!(
        "{{\"extension_degree\": 1, \"field_characteristic\": \"101\", \"input_variables\": {}, \"n_constraints\": {}, \"n_variables\": {}, \"output_variables\": []}}",
        inputs, n_constraints, n_variables
    )
}

/// Private variables 1 and 2 multiply to the public variable 3.
fn descriptor() -> R1CS {
    let file = format!(
        "{}\n{}\n",
        header_line("[3]", 1, 4),
        "{\"A\": [[\"1\", 1]], \"B\": [[\"1\", 2]], \"C\": [[\"1\", 3]]}",
    );
    R1CS::from(parse_r1cs_file(file.as_bytes()).unwrap())
}

fn witness() -> Witness {
    let wfile = format!(
        "{}\n[1, \"3\"]\n[2, \"5\"]\n[3, \"15\"]\n",
        header_line("[3]", 1, 4)
    );
    Witness::from(parse_witness_file(wfile.as_bytes()).unwrap())
}

#[test]
fn setup_prove_and_verify_round_trip() {
    // Key generation sees the descriptor without any witness.
    let setup_circuit = TestCircuit {
        circuit: Circuit {
            r1cs: descriptor(),
            witness: None,
        },
    };
    let mut rng = thread_rng();
    let (pk, vk) = Groth16::<Bn254>::circuit_specific_setup(setup_circuit, &mut rng).unwrap();

    // Proving sees the same descriptor with the witness.
    let prove_circuit = TestCircuit {
        circuit: Circuit {
            r1cs: descriptor(),
            witness: Some(witness()),
        },
    };
    let proof = Groth16::<Bn254>::prove(&pk, prove_circuit, &mut rng).unwrap();

    // Verification takes the public inputs sorted by index, not file order.
    let inputs = parse_inputs_file(b"[3, \"15\"]\n").unwrap();
    let public: Vec<ark_bn254::Fr> = inputs.sorted_values().into_iter().map(|s| s.value).collect();
    assert!(Groth16::<Bn254>::verify(&vk, &public, &proof).unwrap());

    // A wrong public input does not verify.
    let wrong = parse_inputs_file(b"[3, \"16\"]\n").unwrap();
    let wrong_public: Vec<ark_bn254::Fr> =
        wrong.sorted_values().into_iter().map(|s| s.value).collect();
    assert!(!Groth16::<Bn254>::verify(&vk, &wrong_public, &proof).unwrap());
}
