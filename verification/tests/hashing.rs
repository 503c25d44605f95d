use proxmox_imgctl::catalog::HashAlgo;
use proxmox_imgctl::download::digest_hex;
use proxmox_imgctl::hashing::{file_digest_absorb, file_digest_finish, file_digest_start};

fn digest_in_chunks(algo: HashAlgo, chunks: &[&[u8]]) -> Vec<u8> {
    let mut d = file_digest_start(algo);
    for c in chunks {
        file_digest_absorb(&mut d, c);
    }
    file_digest_finish(d)
}

#[test]
fn sha256_of_chunks_is_sha256_of_the_whole() {
    let split = digest_in_chunks(HashAlgo::Sha256, &[b"ab", b"", b"c"]);
    let whole = digest_in_chunks(HashAlgo::Sha256, &[b"abc"]);
    assert_eq!(split, whole);
    assert_eq!(split.len(), 32);
    assert_eq!(
        digest_hex(&split),
        "ba7816bf8f01cfea414140de5dae2223b00361a396177a9cb410ff61f20015ad"
    );
}

#[test]
fn sha512_of_chunks_is_sha512_of_the_whole() {
    let split = digest_in_chunks(HashAlgo::Sha512, &[b"a", b"bc"]);
    assert_eq!(split.len(), 64);
    assert_eq!(
        digest_hex(&split),
        "ddaf35a193617abacc417349ae20413112e6fa4e89a97ea20a9eeee64b55d39a\
         2192992a274fc1a836ba3c23a3feebbd454d4423643ce80e2a9ac94fa54ca49f"
    );
}

#[test]
fn empty_input_digests() {
    assert_eq!(
        digest_hex(&digest_in_chunks(HashAlgo::Sha256, &[])),
        "e3b0c44298fc1c149afbf4c8996fb92427ae41e4649b934ca495991b7852b855"
    );
}
