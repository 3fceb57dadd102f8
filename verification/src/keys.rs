//! Private keys: where they come from, and the wallet that a key opens.
use vstd::prelude::*;

use crate::text;
use alloy::signers::local::{LocalSignerError, PrivateKeySigner};

verus! {

/// How many numbered variables are looked at.
pub const MAX_NUMBERED_KEYS: usize = 32;

/// The name of the numbered variable `i`.
pub fn key_variable(i: u32) -> (name: String)
    ensures
        name@ == "PRIVATE_KEY_"@ + text::decimal(i as nat),
{
    let mut name: String = "PRIVATE_KEY_".to_owned();
    text::append_decimal(&mut name, i);
    name
}

/// Whether a variable is set, and to more than white space.
pub open spec fn is_usable(var: Option<String>) -> bool {
    var matches Some(v) && !text::is_blank(v@)
}

/// How many usable variables there are before the first one that is not.
pub open spec fn leading_usable(vars: Seq<Option<String>>) -> nat
    decreases vars.len(),
{
    if vars.len() > 0 && is_usable(vars[0]) {
        1 + leading_usable(vars.drop_first())
    } else {
        0
    }
}

/// How many of the numbered variables are taken.
pub open spec fn numbered_count(numbered: Seq<Option<String>>) -> nat {
    if leading_usable(numbered) < MAX_NUMBERED_KEYS {
        leading_usable(numbered)
    } else {
        MAX_NUMBERED_KEYS as nat
    }
}

/// The keys: those of the numbered variables up to the first gap, or else the
/// single one, or else none.
pub open spec fn collected(numbered: Seq<Option<String>>, single: Option<String>) -> Option<
    Seq<Seq<char>>,
> {
    let n = numbered_count(numbered);
    if n > 0 {
        Some(Seq::new(n, |i: int| numbered[i]->0@))
    } else if is_usable(single) {
        Some(seq![single->0@])
    } else {
        None
    }
}

/// The texts that a vector of strings holds.
pub open spec fn texts(v: Seq<String>) -> Seq<Seq<char>> {
    v.map_values(|s: String| s@)
}

fn usable(var: &Option<String>) -> (r: bool)
    ensures
        r == is_usable(*var),
{
    match var {
        Some(v) => !text::blank(v.as_str()),
        None => false,
    }
}

/// Collects the private keys. `numbered` holds the values of `PRIVATE_KEY_1`,
/// `PRIVATE_KEY_2` and so on, `single` the value of `PRIVATE_KEY`. The result
/// is `None` where a key has to be asked for.
pub fn collect_private_keys(numbered: &Vec<Option<String>>, single: &Option<String>) -> (keys: Option<
    Vec<String>,
>)
    ensures
        match keys {
            Some(k) => collected(numbered@, *single) == Some(texts(k@)),
            None => collected(numbered@, *single) is None,
        },
{
    let mut keys: Vec<String> = Vec::new();
    let mut i: usize = 0;
    assert(numbered@.skip(0) =~= numbered@);
    while i < numbered.len() && i < MAX_NUMBERED_KEYS && usable(&numbered[i])
        invariant
            i <= numbered@.len(),
            i <= MAX_NUMBERED_KEYS,
            keys@.len() == i,
            leading_usable(numbered@) == i + leading_usable(numbered@.skip(i as int)),
            forall|j: int|
                0 <= j < i ==> is_usable(#[trigger] numbered@[j]) && keys@[j]@ == numbered@[j]->0@,
        decreases numbered@.len() - i,
    {
        assert(numbered@.skip(i as int).drop_first() =~= numbered@.skip(i + 1));
        if let Some(v) = &numbered[i] {
            keys.push(v.clone());
        }
        i += 1;
    }
    assert(i == numbered_count(numbered@));
    if keys.len() == 0 {
        match single {
            Some(v) => {
                if text::blank(v.as_str()) {
                    return None;
                }
                keys.push(v.clone());
                assert(texts(keys@) =~= seq![v@]);
            },
            None => {
                return None;
            },
        }
    } else {
        assert(texts(keys@) =~= collected(numbered@, *single)->0);
    }
    Some(keys)
}

/// Numbered keys override the single one.
pub proof fn law_numbered_keys_override(
    numbered: Seq<Option<String>>,
    single1: Option<String>,
    single2: Option<String>,
)
    requires
        numbered.len() > 0,
        is_usable(numbered[0]),
    ensures
        collected(numbered, single1) == collected(numbered, single2),
        collected(numbered, single1) is Some,
{
}

/// What is collected is at least one key and at most `MAX_NUMBERED_KEYS`, and
/// no key is blank.
pub proof fn law_collected_keys(numbered: Seq<Option<String>>, single: Option<String>)
    requires
        collected(numbered, single) is Some,
    ensures
        1 <= collected(numbered, single)->0.len() <= MAX_NUMBERED_KEYS,
        forall|i: int|
            0 <= i < collected(numbered, single)->0.len() ==> !text::is_blank(
                #[trigger] collected(numbered, single)->0[i],
            ),
{
    lemma_leading_usable(numbered);
}

proof fn lemma_leading_usable(vars: Seq<Option<String>>)
    ensures
        leading_usable(vars) <= vars.len(),
        forall|i: int| 0 <= i < leading_usable(vars) ==> is_usable(#[trigger] vars[i]),
    decreases vars.len(),
{
    if vars.len() > 0 && is_usable(vars[0]) {
        lemma_leading_usable(vars.drop_first());
        assert forall|i: int| 0 <= i < leading_usable(vars) implies is_usable(
            #[trigger] vars[i],
        ) by {
            if i > 0 {
                assert(vars.drop_first()[i - 1] == vars[i]);
            }
        }
    }
}

/// The error of `alloy`'s local signers, carried through as it is.
#[verifier::external_type_specification]
#[verifier::external_body]
pub struct ExLocalSignerError(LocalSignerError);

/// The address of the account that a key controls, or nothing where the text
/// is no key.
pub uninterp spec fn signer_address(key: Seq<char>) -> Option<Seq<u8>>;

/// Calls the `FromStr` of `alloy::signers::local::PrivateKeySigner` and the
/// signer's `address`. Claimed of them: whether the text is a key, and the
/// address, are functions of the text alone. Which functions they are stays
/// unsaid; they are known here under the name `signer_address`. What the error
/// says is left open too.
#[verifier::external_body]
fn parse_signer(key: &str) -> (r: Result<[u8; 20], LocalSignerError>)
    ensures
        match r {
            Ok(address) => signer_address(key@) == Some(address@),
            Err(_) => signer_address(key@) is None,
        },
{
    let signer: PrivateKeySigner = key.parse()?;
    Ok(signer.address().into_array())
}

/// A key, ready for use, and the address of the account that it controls.
#[derive(Debug)]
pub struct WalletKey {
    pub key: String,
    pub address: [u8; 20],
}

/// Why a text does not open a wallet.
#[derive(Debug)]
pub enum WalletError {
    /// What is left of the text is not 64 bytes long.
    Length,
    /// The signer does not take it.
    Signer(LocalSignerError),
}

/// The part of a text that should be the key: without white space around it,
/// and without "0x" in front.
pub open spec fn key_part(raw: Seq<char>) -> Seq<char> {
    text::strip_0x(text::trimmed(raw))
}

/// The number of bytes that a text takes in UTF-8.
pub open spec fn byte_len(s: Seq<char>) -> nat {
    vstd::utf8::encode_utf8(s).len()
}

/// The part of a text that should be the key, if its length is right.
pub fn normalize_key(raw: &str) -> (r: Option<&str>)
    ensures
        match r {
            Some(key) => key@ == key_part(raw@) && byte_len(key_part(raw@)) == 64,
            None => byte_len(key_part(raw@)) != 64,
        },
{
    let key: &str = text::strip_hex_prefixes(text::trim(raw));
    if key.as_bytes().len() != 64 {
        None
    } else {
        Some(key)
    }
}

/// "0x" in front of a key makes no difference, unless it hides white space in
/// front of the key.
pub proof fn law_hex_prefix_is_optional(key: Seq<char>)
    requires
        key.len() > 0 && text::is_white_space(key[0]) ==> text::is_blank(key),
    ensures
        key_part(seq!['0', 'x'] + key) == key_part(key),
{
    let prefix = seq!['0', 'x'];
    let prefixed = prefix + key;
    let rest = text::trimmed_end(key);
    text::lemma_trimmed_end_concat(prefix, key);
    assert(text::trimmed(prefixed) == prefix + rest);
    assert((prefix + rest).skip(2) =~= rest);
    if text::is_blank(key) {
        text::lemma_trimmed_end_blank(key);
        text::law_blank_is_trimmed_to_nothing(key);
        assert(rest =~= text::trimmed(key));
    }
}

/// What comes of a key of the right length once the signer has answered.
pub fn settle_wallet(key: &str, reply: Result<[u8; 20], LocalSignerError>) -> (r: Result<
    WalletKey,
    WalletError,
>)
    ensures
        match reply {
            Ok(address) => r matches Ok(w) && w.key@ == key@ && w.address@ == address@,
            Err(e) => r == Err::<WalletKey, WalletError>(WalletError::Signer(e)),
        },
{
    match reply {
        Ok(address) => Ok(WalletKey { key: key.to_owned(), address }),
        Err(e) => Err(WalletError::Signer(e)),
    }
}

/// Opens the wallet of a private key as it was typed or configured.
pub fn open_wallet(raw: &str) -> (r: Result<WalletKey, WalletError>)
    ensures
        match r {
            Ok(w) => {
                &&& byte_len(key_part(raw@)) == 64
                &&& w.key@ == key_part(raw@)
                &&& signer_address(key_part(raw@)) == Some(w.address@)
            },
            Err(WalletError::Length) => byte_len(key_part(raw@)) != 64,
            Err(WalletError::Signer(_)) => {
                &&& byte_len(key_part(raw@)) == 64
                &&& signer_address(key_part(raw@)) is None
            },
        },
{
    match normalize_key(raw) {
        Some(key) => settle_wallet(key, parse_signer(key)),
        None => Err(WalletError::Length),
    }
}

/// The texts of strings are those that they hold, in their order.
pub proof fn law_texts(v: Seq<String>, i: int)
    requires
        0 <= i < v.len(),
    ensures
        texts(v).len() == v.len(),
        texts(v)[i] == v[i]@,
{
}

/// The keys of the numbered variables are taken in their order, as they are,
/// until one is not set or blank, or there are 32; what comes after, and the
/// single key, do not matter.
pub proof fn law_numbered_keys_are_taken(
    numbered: Seq<Option<String>>,
    keys: Seq<String>,
    single: Option<String>,
)
    requires
        1 <= keys.len() <= 32,
        keys.len() <= numbered.len(),
        forall|i: int| 0 <= i < keys.len() ==> #[trigger] numbered[i] == Some(keys[i]),
        forall|i: int| 0 <= i < keys.len() ==> !text::is_blank((#[trigger] keys[i])@),
        keys.len() < 32 && keys.len() < numbered.len() ==> (numbered[keys.len() as int] matches Some(
            v,
        ) ==> text::is_blank(v@)),
    ensures
        collected(numbered, single) matches Some(k) && k.len() == keys.len() && forall|i: int|
            0 <= i < keys.len() ==> #[trigger] k[i] == keys[i]@,
{
    assert forall|i: int| 0 <= i < keys.len() implies is_usable(#[trigger] numbered[i]) by {
        assert(!text::is_blank(keys[i]@));
    }
    lemma_leading_usable_at_least(numbered, keys.len());
    lemma_leading_usable(numbered);
    if leading_usable(numbered) > keys.len() && keys.len() < 32 {
        assert(is_usable(numbered[keys.len() as int]));
    }
}

/// Where the first numbered variable is not set or blank, the single key is
/// taken as it is, unless that is not set or blank too.
pub proof fn law_single_key_is_taken(numbered: Seq<Option<String>>, single: Option<String>)
    requires
        numbered.len() > 0 ==> (numbered[0] matches Some(v) ==> text::is_blank(v@)),
    ensures
        match single {
            Some(v) => if text::is_blank(v@) {
                collected(numbered, single) is None
            } else {
                collected(numbered, single) == Some(seq![v@])
            },
            None => collected(numbered, single) is None,
        },
{
}

proof fn lemma_leading_usable_at_least(vars: Seq<Option<String>>, n: nat)
    requires
        n <= vars.len(),
        forall|i: int| 0 <= i < n ==> is_usable(#[trigger] vars[i]),
    ensures
        leading_usable(vars) >= n,
    decreases n,
{
    if n > 0 {
        let rest = vars.drop_first();
        assert(is_usable(vars[0]));
        assert forall|i: int| 0 <= i < n - 1 implies is_usable(#[trigger] rest[i]) by {
            assert(rest[i] == vars[i + 1]);
        }
        lemma_leading_usable_at_least(rest, (n - 1) as nat);
    }
}

/// What is left of a text as its key is what stands between the white space
/// around it and the "0x" in front of it, and nothing is taken out of that.
pub proof fn law_key_part(front: Seq<char>, prefixes: Seq<char>, key: Seq<char>, back: Seq<char>)
    requires
        text::is_blank(front),
        text::is_blank(back),
        prefixes.len() % 2 == 0,
        forall|i: int|
            0 <= i < prefixes.len() ==> #[trigger] prefixes[i] == if i % 2 == 0 {
                '0'
            } else {
                'x'
            },
        !(key.len() >= 2 && key[0] == '0' && key[1] == 'x'),
        key.len() > 0 ==> !text::is_white_space(key.last()),
        key.len() > 0 && prefixes.len() == 0 ==> !text::is_white_space(key[0]),
    ensures
        key_part(front + prefixes + key + back) == key,
{
    let core = prefixes + key;
    if core.len() > 0 {
        assert(core[0] == if prefixes.len() > 0 {
            prefixes[0]
        } else {
            key[0]
        });
        if key.len() > 0 {
            assert(core.last() == key.last());
        } else {
            assert(core.last() == prefixes[prefixes.len() - 1]);
        }
    }
    text::law_trimmed(front, core, back);
    assert(front + prefixes + key + back =~= front + core + back);
    text::law_strip_0x(prefixes, key);
}

/// Two texts one after the other take the bytes of both, and a character on its
/// own takes one byte below 128, two below 2048, three below 65536 and four from
/// there on.
pub proof fn law_byte_len(a: Seq<char>, b: Seq<char>, c: char)
    ensures
        byte_len(a + b) == byte_len(a) + byte_len(b),
        byte_len(seq![c]) == if (c as u32) < 128 {
            1int
        } else if (c as u32) < 2048 {
            2
        } else if (c as u32) < 65536 {
            3
        } else {
            4
        },
    decreases a.len(),
{
    assert(seq![c].drop_first() =~= Seq::<char>::empty());
    assert(byte_len(Seq::<char>::empty()) == 0);
    if a.len() == 0 {
        assert(a + b =~= b);
    } else {
        law_byte_len(a.drop_first(), b, c);
        assert((a + b).drop_first() =~= a.drop_first() + b);
        assert((a + b)[0] == a[0]);
    }
}

} // verus!
