use pool_core::common::{
    address_error, signature_error, AddressParseError, GenericMessageResponse, Miner, Registration,
    SignatureVerificationError,
};

#[test]
fn address_error_carries_its_message() {
    let err: AddressParseError = address_error("not bech32");
    assert_eq!(err.0, "not bech32");
}

#[test]
fn signature_error_carries_its_message() {
    let err: SignatureVerificationError = signature_error("bad signature");
    assert_eq!(err.0, "bad signature");
}

#[test]
fn plain_carriers_hold_their_fields() {
    let message = GenericMessageResponse { message: String::from("hello") };
    assert_eq!(message.message, "hello");
    let registration = Registration {
        address: String::from("addr"),
        key: String::from("key"),
        payload: String::from("payload"),
        signature: String::from("sig"),
    };
    assert_eq!(registration.address, "addr");
    let miner = Miner {
        id: 4,
        address: String::from("addr"),
        pkh: String::from("pkh"),
        sampling_difficulty: 8,
    };
    assert_eq!(miner.id, 4);
    assert_eq!(miner.sampling_difficulty, 8);
}
