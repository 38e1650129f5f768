//! Password hashing and verification.
//!
//! The key-derivation function is Argon2id with negotiated costs and a
//! fixed 32-byte output; its salt is the client's 16 bytes followed by
//! the server's 16. The digest is a pure function of the password bytes,
//! the salt, and the costs — `argon2id_of` names it, and both sides'
//! contracts speak of that one name, so the hash the server recomputes is
//! by construction the hash an honest client sends. Digest comparison
//! folds over all 32 bytes before deciding, so its timing does not depend
//! on where the digests differ.

use vstd::prelude::*;
use vstd::slice::slice_to_vec;
use vstd::utf8::encode_utf8;
use vstd::string::StringSliceAdditionalSpecFns;
use crate::Error;
use crate::codec::FrameWriter;
use crate::handshake::Params;

verus! {

/// The 32-byte Argon2id digest of a password under a salt and the three
/// cost parameters. A pure function of its arguments: same inputs, same
/// digest, on every machine.
pub uninterp spec fn argon2id_of(
    password: Seq<u8>,
    salt: Seq<u8>,
    m_cost: u32,
    t_cost: u32,
    p_cost: u32,
) -> Seq<u8>;

/// The cost bounds the key-derivation function accepts: at least 8 blocks
/// of memory and 8 per lane, at least one pass, between 1 and 2^24 - 1
/// lanes.
pub open spec fn argon2_params_ok(m_cost: u32, t_cost: u32, p_cost: u32) -> bool {
    &&& m_cost >= 8
    &&& t_cost >= 1
    &&& 1 <= p_cost <= 0xFFFFFF
    &&& m_cost >= 8 * p_cost as int
}

/// The longest password the key-derivation function takes, in bytes.
pub open spec fn argon2_pwd_len_ok(password: Seq<u8>) -> bool {
    password.len() <= 0xFFFFFFFF
}

/// Relies on the argon2 crate: `Params::new` accepts exactly the costs of
/// `argon2_params_ok` (with a 32-byte output), and `hash_password_into`
/// with Argon2id version 0x13 fills the 32 bytes with a digest that
/// depends on the password, the salt, and the costs alone. With
/// acceptable costs and inputs the call fails only if the working memory
/// cannot be allocated.
#[verifier::external_body]
fn argon2id_hash(password: &[u8], salt: &[u8], m_cost: u32, t_cost: u32, p_cost: u32) -> (r: Result<Vec<u8>, Error>)
    requires
        salt@.len() == 32,
    ensures
        r matches Ok(h) ==> h@ == argon2id_of(password@, salt@, m_cost, t_cost, p_cost),
        r matches Ok(h) ==> h@.len() == 32,
        r matches Err(e) ==> e == Error::Argon2,
        !(argon2_params_ok(m_cost, t_cost, p_cost) && argon2_pwd_len_ok(password@)) ==> r is Err,
{
    let params = match argon2::Params::new(m_cost, t_cost, p_cost, Some(32)) {
        Ok(p) => p,
        Err(_) => return Err(Error::Argon2),
    };
    let hasher = argon2::Argon2::new(argon2::Algorithm::Argon2id, argon2::Version::V0x13, params);
    let mut out = [0u8; 32];
    match hasher.hash_password_into(password, salt, &mut out) {
        Ok(()) => Ok(out.to_vec()),
        Err(_) => Err(Error::Argon2),
    }
}

/// Relies on rand's thread-local cryptographically strong generator to
/// fill the 16 bytes; nothing is promised of the values themselves.
#[verifier::external_body]
pub fn rand_salt() -> (salt: Vec<u8>)
    ensures
        salt@.len() == 16,
{
    let mut salt = [0u8; 16];
    <rand::rngs::ThreadRng as rand::Rng>::fill_bytes(&mut rand::rng(), &mut salt);
    salt.to_vec()
}

/// Relies on zeroize: the vector's whole capacity is overwritten with
/// zeroes and the vector is left empty.
#[verifier::external_body]
fn wipe_bytes(v: &mut Vec<u8>)
    ensures
        final(v)@.len() == 0,
{
    zeroize::Zeroize::zeroize(v);
}

/// Derive the 32-byte hashed password from a password and both sides'
/// salts: the Argon2id digest under `client_salt || server_salt`.
pub fn to_hash_password(
    password: &str,
    client_salt: &Vec<u8>,
    server_salt: &Vec<u8>,
    params: Params,
) -> (r: Result<Vec<u8>, Error>)
    requires
        client_salt@.len() == 16,
        server_salt@.len() == 16,
    ensures
        r matches Ok(h) ==> h@ == argon2id_of(
            encode_utf8(password@),
            client_salt@ + server_salt@,
            params.m_cost,
            params.t_cost,
            params.p_cost,
        ) && h@.len() == 32,
        r is Ok ==> argon2_params_ok(params.m_cost, params.t_cost, params.p_cost)
            && argon2_pwd_len_ok(encode_utf8(password@)),
        r is Err ==> r == Err::<Vec<u8>, Error>(Error::Argon2),
{
    let mut salt: Vec<u8> = Vec::new();
    salt.extend_from_slice(client_salt.as_slice());
    salt.extend_from_slice(server_salt.as_slice());
    proof {
        assert(salt@ =~= client_salt@ + server_salt@);
    }
    argon2id_hash(
        password.as_bytes(),
        salt.as_slice(),
        params.m_cost,
        params.t_cost,
        params.p_cost,
    )
}

/// Derive the hashed password and append its 32 raw bytes. On an error
/// nothing is appended.
pub fn write_auth_password(
    w: &mut FrameWriter,
    password: &str,
    client_salt: &Vec<u8>,
    server_salt: &Vec<u8>,
    params: Params,
) -> (r: Result<(), Error>)
    requires
        client_salt@.len() == 16,
        server_salt@.len() == 16,
    ensures
        r is Ok ==> final(w).buf@ == old(w).buf@ + argon2id_of(
            encode_utf8(password@),
            client_salt@ + server_salt@,
            params.m_cost,
            params.t_cost,
            params.p_cost,
        ),
        r is Err ==> final(w).buf@ == old(w).buf@ && r == Err::<(), Error>(Error::Argon2),
{
    let hashed = match to_hash_password(password, client_salt, server_salt, params) {
        Ok(h) => h,
        Err(e) => {
            return Err(e);
        },
    };
    w.write_all(hashed.as_slice());
    Ok(())
}

/// Compare two equal-length byte strings without an early exit: the
/// differences of every position are folded into one accumulator, and a
/// single test at the end decides.
pub fn ct_eq(a: &Vec<u8>, b: &Vec<u8>) -> (r: bool)
    requires
        a@.len() == b@.len(),
    ensures
        r == (a@ == b@),
{
    let mut diff: u8 = 0;
    let mut i: usize = 0;
    let n = a.len();
    while i < n
        invariant
            i <= n,
            n == a@.len(),
            a@.len() == b@.len(),
            (diff == 0) <==> (forall|k: int| 0 <= k < i ==> a@[k] == b@[k]),
        decreases n - i,
    {
        let ai = a[i];
        let bi = b[i];
        let d = ai ^ bi;
        proof {
            assert((diff | d == 0) == (diff == 0 && d == 0)) by (bit_vector);
            assert((d == 0) == (ai == bi)) by (bit_vector)
                requires
                    d == ai ^ bi,
            ;
        }
        diff = diff | d;
        i = i + 1;
    }
    proof {
        if diff == 0 {
            assert(a@ =~= b@);
        }
    }
    diff == 0
}

/// The configured password, held as its UTF-8 bytes. `clear` wipes the
/// secret when it is no longer needed.
pub struct Password {
    secret: Vec<u8>,
}

impl View for Password {
    type V = Seq<u8>;

    closed spec fn view(&self) -> Seq<u8> {
        self.secret@
    }
}

impl Password {
    /// Hold a password's UTF-8 bytes.
    pub fn from_str(value: &str) -> (p: Password)
        ensures
            p@ == encode_utf8(value@),
    {
        Password { secret: slice_to_vec(value.as_bytes()) }
    }

    /// Whether the configured password is empty.
    pub fn is_empty(&self) -> (r: bool)
        ensures
            r == (self@.len() == 0),
    {
        self.secret.len() == 0
    }

    /// Recompute the digest from the configured password and compare it,
    /// in constant time, with the 32 bytes the client sent. Every
    /// password — the empty one included — goes through the full
    /// derivation.
    pub fn verify(
        &self,
        client_salt: &Vec<u8>,
        server_salt: &Vec<u8>,
        params: Params,
        client_password: &Vec<u8>,
    ) -> (r: Result<bool, Error>)
        requires
            client_salt@.len() == 16,
            server_salt@.len() == 16,
            client_password@.len() == 32,
        ensures
            r matches Ok(eq) ==> eq == (argon2id_of(
                self@,
                client_salt@ + server_salt@,
                params.m_cost,
                params.t_cost,
                params.p_cost,
            ) == client_password@),
            r is Err ==> r == Err::<bool, Error>(Error::Argon2),
    {
        let mut salt: Vec<u8> = Vec::new();
        salt.extend_from_slice(client_salt.as_slice());
        salt.extend_from_slice(server_salt.as_slice());
        proof {
            assert(salt@ =~= client_salt@ + server_salt@);
        }
        let server_password = argon2id_hash(
            self.secret.as_slice(),
            salt.as_slice(),
            params.m_cost,
            params.t_cost,
            params.p_cost,
        )?;
        Ok(ct_eq(&server_password, client_password))
    }

    /// Overwrite the secret bytes with zeroes.
    pub fn clear(&mut self)
        ensures
            final(self)@.len() == 0,
    {
        wipe_bytes(&mut self.secret);
    }
}

} // verus!
