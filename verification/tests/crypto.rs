use risex_latency::crypto::{
    address_from_key, address_of_hash, hash_text, recoverable_signature, sign_hash,
    sign_hash_base64, sign_hash_hex, signing_key_from_hex, Address, KeyError, SigningKey,
};
use risex_latency::eip712::{
    eip712_hash, separator_of, signing_preimage, RegisterSigner, VerifySigner, VerifyWitness,
};
use risex_latency::order::{
    cancel_all_preimage, encode_cancel_all_hash, encode_order_hash, Order,
};

fn hex_of(bytes: &[u8]) -> String {
    bytes.iter().map(|b| format!("{:02x}", b)).collect()
}

fn key(n: u8) -> SigningKey {
    match signing_key_from_hex(&format!("0x{:064x}", n)) {
        Ok(k) => k,
        Err(e) => panic!("no key: {:?}", e),
    }
}

fn key_error(text: &str) -> Option<KeyError> {
    signing_key_from_hex(text).err()
}

#[test]
fn hash_of_a_text() {
    assert_eq!(
        hex_of(&hash_text("hello")),
        "1c8aff950685c2ed4bc3174f3472287b56d9517b9c948127319a09a7a36deac8"
    );
    assert_eq!(
        hex_of(&hash_text("")),
        "c5d2460186f7233c927e7db2dcc703c0e500b653ca82273b7bfad8045d85a470"
    );
}

#[test]
fn keys_with_and_without_prefix() {
    let digits = format!("{:064x}", 1);
    assert_eq!(signing_key_from_hex(&digits).ok().map(|k| k.bytes[31]), Some(1));
    assert_eq!(signing_key_from_hex(&format!("0x{}", digits)).ok().map(|k| k.bytes[31]), Some(1));
}

#[test]
fn keys_that_are_refused() {
    assert_eq!(key_error("xyz"), Some(KeyError::InvalidHex));
    assert_eq!(key_error("0x0x01"), Some(KeyError::InvalidHex));
    assert_eq!(key_error("123"), Some(KeyError::InvalidHex));
    assert_eq!(key_error("0x01"), Some(KeyError::WrongLength));
    assert_eq!(key_error(&"0".repeat(64)), Some(KeyError::InvalidKey));
    assert_eq!(key_error(&"f".repeat(64)), Some(KeyError::InvalidKey));
    let order = "fffffffffffffffffffffffffffffffebaaedce6af48a03bbfd25e8cd0364141";
    assert_eq!(key_error(order), Some(KeyError::InvalidKey));
    let last = "FFFFFFFFFFFFFFFFFFFFFFFFFFFFFFFEBAAEDCE6AF48A03BBFD25E8CD0364140";
    assert_eq!(key_error(last), None);
}

#[test]
fn addresses_of_keys() {
    assert_eq!(
        address_from_key(&key(1)).to_text(),
        "0x7E5F4552091A69125d5DfCb7b8C2659029395Bdf"
    );
    assert_eq!(
        address_from_key(&key(2)).to_text(),
        "0x2B5AD5c4795c026514f8317c7a215E218DcCD6cF"
    );
}

#[test]
fn address_is_the_end_of_a_hash() {
    let mut hash = [0u8; 32];
    for i in 0..32 {
        hash[i] = i as u8;
    }
    assert_eq!(address_of_hash(&hash).bytes[0], 12);
    assert_eq!(address_of_hash(&hash).bytes[19], 31);
}

#[test]
fn address_round_trip() {
    let text = "0x7E5F4552091A69125d5DfCb7b8C2659029395Bdf";
    for variant in [text, &text.to_lowercase(), &text[2..]] {
        match Address::parse(variant) {
            Some(a) => assert_eq!(a.to_text(), text),
            None => panic!("not read: {}", variant),
        }
    }
}

#[test]
fn addresses_that_are_refused() {
    assert!(Address::parse("").is_none());
    assert!(Address::parse("0x7E5F").is_none());
    assert!(Address::parse("0x7E5F4552091A69125d5DfCb7b8C2659029395Bdg").is_none());
    assert!(Address::parse("0x7E5F4552091A69125d5DfCb7b8C2659029395Bdf00").is_none());
}

#[test]
fn signatures_of_a_hash() {
    let hash = hash_text("hello");
    let hex = "433ec3d37e4f1253df15e2dea412fed8e915737730f74b3dfb1353268f932ef5\
               557c9158e0b34bce39de28d11797b42e9b1acb2749230885fe075aedc3e491a41b";
    assert_eq!(sign_hash(&key(1), &hash).map(|s| hex_of(&s)), Some(hex.to_string()));
    assert_eq!(sign_hash_hex(&key(1), &hash), Some(format!("0x{}", hex)));
    assert_eq!(
        sign_hash_base64(&key(2), &hash),
        Some(
            "ii8jSybreHrDPkSX9F/CPTETrQIFlCIl/0Cl8kwNjZJeMBZP0axTWtEkfnM1nTJ+eQ1ikhrVlg/j9n4cil+1NRs="
                .to_string()
        )
    );
}

#[test]
fn recovery_id_is_raised_once() {
    let signature = [7u8; 64];
    assert_eq!(recoverable_signature(&signature, 0)[64], 27);
    assert_eq!(recoverable_signature(&signature, 1)[64], 28);
    assert_eq!(recoverable_signature(&signature, 26)[64], 53);
    assert_eq!(recoverable_signature(&signature, 27)[64], 27);
    assert_eq!(recoverable_signature(&signature, 200)[64], 200);
    assert_eq!(recoverable_signature(&signature, 0)[63], 7);
}

fn contract() -> Address {
    let mut bytes = [0u8; 20];
    for i in 0..20 {
        bytes[i] = i as u8 + 1;
    }
    Address { bytes }
}

#[test]
fn separator_of_a_domain() {
    assert_eq!(
        hex_of(&separator_of("RISEx", "1", 11155931, &contract())),
        "5c601c19f351f44b48f08ed45d9a8ffb988c938b773612289248328f86685cae"
    );
}

#[test]
fn hash_of_a_registration() {
    let request = RegisterSigner {
        account: address_from_key(&key(1)),
        signer: address_from_key(&key(2)),
        message: "Registering signer for RISEx".to_string(),
        expiration: 1702592000,
        nonce_anchor: 42,
        nonce_bitmap: 0,
    };
    assert_eq!(request.encode().len(), 224);
    assert_eq!(
        hex_of(&request.hash_struct()),
        "c05c01d04206cc791d177957c17438342509a6e21510584462c2b18718f4493b"
    );
}

#[test]
fn hash_of_an_agreement() {
    let agreement =
        VerifySigner { account: address_from_key(&key(1)), nonce_anchor: 42, nonce_bitmap: 0 };
    assert_eq!(agreement.encode().len(), 128);
    assert_eq!(
        hex_of(&agreement.hash_struct()),
        "9409591d8f716c523266e071614f935a16a5e026c02159f260b6d0307320455b"
    );
}

#[test]
fn digest_of_a_permit() {
    let witness = VerifyWitness {
        account: address_from_key(&key(1)),
        target: Address { bytes: [0x11; 20] },
        hash: Order::market_buy(2, 100).hash(),
        nonce_anchor: 41,
        nonce_bitmap: 7,
        deadline: 1700604800,
    };
    let hash = witness.hash_struct();
    assert_eq!(
        hex_of(&hash),
        "0104e9e5a49bec9b437126d3cf3a2ab1c706553e7ff1b756620aae9759e14f3f"
    );
    let separator = separator_of("RISEx", "1", 11155931, &contract());
    assert_eq!(
        hex_of(&eip712_hash(&separator, &hash)),
        "1543d7ba6bd56b78374572aa5512816c7f82a6484472049b248ae024c47d00c7"
    );
}

#[test]
fn signing_bytes_hold_both_hashes() {
    let data = signing_preimage(&[1u8; 32], &[2u8; 32]);
    assert_eq!(data.len(), 66);
    assert_eq!(data[..2], [0x19, 0x01]);
    assert_eq!(data[2..34], [1u8; 32]);
    assert_eq!(data[34..], [2u8; 32]);
}

#[test]
fn market_order_is_packed() {
    let order = Order::market_buy(2, 100);
    assert_eq!(order.pack(), 0x800000190000003002);
    assert_eq!(
        hex_of(&order.hash()),
        "d0f344a1e21c3fcdb430ac489e8ac49ea8708855776d2ced0f3a48aba8fa53db"
    );
    assert_eq!(order.encode(&[9u8; 32]).len(), 192);
}

#[test]
fn wide_fields_are_cut() {
    assert_eq!(
        hex_of(&encode_order_hash(70000, 5, 0x1234567, 1, 1, 0, true, true, 2)),
        "0f978fe64ca26fd266cdaec763e59252ef6559e23e2d3812ee730d13a86a89ef"
    );
    let order = Order {
        market_id: 70000,
        size_steps: 5,
        price_ticks: 0x1234567,
        side: 1,
        order_type: 1,
        time_in_force: 0,
        post_only: true,
        reduce_only: true,
        stp_mode: 2,
    };
    assert_eq!(order.pack(), 0x45c0000000148d159cdc2);
    assert_eq!(order.pack() >> 70, 70000 % 0x10000);
}

#[test]
fn kinds_of_orders() {
    let sell = Order::market_sell(3, 8, true);
    assert_eq!((sell.side, sell.order_type, sell.time_in_force), (1, 0, 3));
    assert!(sell.reduce_only && !sell.post_only);
    let limit = Order::limit_buy(3, 8, 90, true);
    assert_eq!((limit.side, limit.order_type, limit.time_in_force), (0, 1, 0));
    assert_eq!((limit.price_ticks, limit.size_steps), (90, 8));
    assert!(limit.post_only && !limit.reduce_only);
}

#[test]
fn hash_of_cancelling_all() {
    assert_eq!(
        hex_of(&encode_cancel_all_hash(2)),
        "2adefd9f90cd34bc1536ad4a28e6f2665f0ff859f44fe2b09ee82944fe3cda11"
    );
    let bytes = cancel_all_preimage(&[9u8; 32], 0x01020304);
    assert_eq!(bytes.len(), 64);
    assert_eq!(bytes[60..], [1, 2, 3, 4]);
}

#[test]
fn public_key_is_recovered_from_a_signature() {
    for n in 1..=40u8 {
        let hash = hash_text(&format!("message {}", n));
        let signed = match sign_hash(&key(n), &hash) {
            Some(s) => s,
            None => panic!("not signed"),
        };
        assert_eq!(sign_hash(&key(n), &hash), Some(signed));
        assert!((27..=30).contains(&signed[64]));
        let signature = k256::ecdsa::Signature::from_slice(&signed[..64]).unwrap();
        let id = k256::ecdsa::RecoveryId::from_byte(signed[64] - 27).unwrap();
        let recovered =
            k256::ecdsa::VerifyingKey::recover_from_prehash(&hash, &signature, id).unwrap();
        let own = k256::ecdsa::SigningKey::from_bytes((&key(n).bytes).into()).unwrap();
        assert_eq!(&recovered, own.verifying_key());
    }
}

#[test]
fn signature_texts_have_fixed_lengths() {
    let hash = hash_text("length");
    assert_eq!(sign_hash_hex(&key(3), &hash).map(|s| s.len()), Some(132));
    assert_eq!(sign_hash_base64(&key(3), &hash).map(|s| s.len()), Some(88));
}
