//! The on-disk vault layout and the whole-file seal/open cycle.
//!
//! The one wire-exact contract: byte 0 through 11 hold the nonce, the
//! rest the authenticated ciphertext of the UTF-8 record stream. There
//! is no partial edit of the ciphertext anywhere: an authenticated
//! ciphertext is not splice-safe, so every mutation recomputes the whole
//! buffer in memory first, and the caller writes it in one sequential
//! write. A failed write therefore leaves the previous bytes as they
//! were.

use crate::encrypt::MAX_PLAIN_CHARS;
use crate::encrypt::NONCE_LEN;
use crate::encrypt::cipher_of;
use crate::encrypt::decrypt;
use crate::encrypt::encrypt;
use crate::encrypt::key_of;
use crate::errors::VaultError;
use vstd::prelude::*;

verus! {

/// What the first read of the vault file yields: the 96-bit nonce and
/// the ciphertext behind it.
#[derive(Debug)]
pub struct Data {
    pub nonce: Vec<u8>,
    pub buf: Vec<u8>,
}

/// Splits raw vault bytes into the 12-byte nonce and the ciphertext
/// behind it. A file too short to hold a nonce is corrupt.
#[verifier::loop_isolation(false)]
pub fn split_data(data: &Vec<u8>) -> (r: Result<Data, VaultError>)
    ensures
        data@.len() >= NONCE_LEN ==> (r matches Ok(d) && d.nonce@ == data@.take(NONCE_LEN as int)
            && d.buf@ == data@.skip(NONCE_LEN as int)),
        data@.len() < NONCE_LEN ==> r == Err::<Data, VaultError>(
            VaultError::IncorrectPasswordOrCorruptData,
        ),
{
    if data.len() < NONCE_LEN {
        return Err(VaultError::IncorrectPasswordOrCorruptData);
    }
    let mut nonce: Vec<u8> = Vec::new();
    let mut i: usize = 0;
    proof {
        assert(nonce@ =~= data@.take(0));
    }
    while i < NONCE_LEN
        invariant
            0 <= i <= NONCE_LEN,
            nonce@ == data@.take(i as int),
        decreases NONCE_LEN - i,
    {
        nonce.push(data[i]);
        proof {
            assert(nonce@ =~= data@.take(i as int + 1));
        }
        i = i + 1;
    }
    let n = data.len();
    let mut ct: Vec<u8> = Vec::new();
    let mut j: usize = NONCE_LEN;
    proof {
        assert(ct@ =~= data@.subrange(NONCE_LEN as int, NONCE_LEN as int));
    }
    while j < n
        invariant
            NONCE_LEN <= j <= n,
            ct@ == data@.subrange(NONCE_LEN as int, j as int),
        decreases n - j,
    {
        ct.push(data[j]);
        proof {
            assert(ct@ =~= data@.subrange(NONCE_LEN as int, j as int + 1));
        }
        j = j + 1;
    }
    proof {
        assert(ct@ =~= data@.skip(NONCE_LEN as int));
    }
    Ok(Data { nonce, buf: ct })
}

/// Computes the next whole vault file: the nonce followed by the
/// ciphertext of `content` under the password-derived key. The caller
/// truncates and writes this buffer in a single sequential write, only
/// after it stands complete in memory.
#[verifier::loop_isolation(false)]
pub fn seal_vault(password: &str, nonce: &Vec<u8>, content: &str) -> (r: Vec<u8>)
    requires
        nonce@.len() == NONCE_LEN,
        content@.len() <= MAX_PLAIN_CHARS,
    ensures
        r@ == nonce@ + cipher_of(key_of(password@), nonce@, content@),
        r@.take(NONCE_LEN as int) == nonce@,
        r@.skip(NONCE_LEN as int) == cipher_of(key_of(password@), nonce@, content@),
{
    let ct = match encrypt(password, content, nonce) {
        Ok(c) => c,
        Err(_) => vstd::pervasive::unreached(),
    };
    let mut out: Vec<u8> = Vec::new();
    let mut i: usize = 0;
    proof {
        assert(out@ =~= nonce@.take(0));
    }
    while i < nonce.len()
        invariant
            0 <= i <= nonce@.len(),
            out@ == nonce@.take(i as int),
        decreases nonce@.len() - i,
    {
        out.push(nonce[i]);
        proof {
            assert(out@ =~= nonce@.take(i as int + 1));
        }
        i = i + 1;
    }
    proof {
        assert(out@ =~= nonce@);
    }
    let m = ct.len();
    let mut j: usize = 0;
    while j < m
        invariant
            0 <= j <= m,
            m == ct@.len(),
            out@ == nonce@ + ct@.take(j as int),
        decreases m - j,
    {
        out.push(ct[j]);
        proof {
            assert(nonce@ + ct@.take(j as int + 1) =~= (nonce@ + ct@.take(j as int)).push(
                ct@[j as int],
            ));
        }
        j = j + 1;
    }
    proof {
        assert(ct@.take(m as int) =~= ct@);
        assert((nonce@ + ct@).take(NONCE_LEN as int) =~= nonce@);
        assert((nonce@ + ct@).skip(NONCE_LEN as int) =~= ct@);
    }
    out
}

/// Opens raw vault bytes with the master password: reads the first 12
/// bytes as the nonce, the rest as ciphertext, and decrypts. What
/// `seal_vault` wrote under the same password comes back exactly; a
/// wrong password or tampered bytes are refused as
/// `IncorrectPasswordOrCorruptData`.
pub fn open_vault(password: &str, data: &Vec<u8>) -> (r: Result<String, VaultError>)
    ensures
        (match r {
            Ok(s) => data@.len() >= NONCE_LEN && data@.skip(NONCE_LEN as int) == cipher_of(
                key_of(password@),
                data@.take(NONCE_LEN as int),
                s@,
            ),
            Err(e) => e == VaultError::IncorrectPasswordOrCorruptData,
        }),
        forall|p: Seq<char>|
            (p.len() <= MAX_PLAIN_CHARS && data@.len() >= NONCE_LEN && data@.skip(NONCE_LEN as int)
                == cipher_of(key_of(password@), data@.take(NONCE_LEN as int), p)) ==> (r matches Ok(
            s,
            ) && s@ == p),
{
    let d = match split_data(data) {
        Ok(d) => d,
        Err(e) => {
            return Err(e);
        },
    };
    decrypt(password, d.buf, &d.nonce)
}

} // verus!
