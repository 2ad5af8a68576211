use utxo_wallet::hash::{double_hash, hash160};

fn hex(bytes: &[u8]) -> String {
    let mut s = String::new();
    for b in bytes {
        s.push_str(&format!("{:02x}", b));
    }
    s
}

#[test]
fn double_hash_of_empty_input() {
    assert_eq!(
        hex(&double_hash(b"")),
        "5df6e0e2761359d30a8275058e299fcc0381534545f55cf43e41983f5d4c9456"
    );
}

#[test]
fn hash160_of_empty_input() {
    assert_eq!(hex(&hash160(b"")), "b472a266d0bd89c13706a4132ccfb16f7c3b9fcb");
}
