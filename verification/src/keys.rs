//! Keys as the library sees them: what the OpenPGP engine told of a key, in
//! plain values.

use crate::text::{bytes_of, join3, texts};
use vstd::utf8::*;
use vstd::prelude::*;
use vstd::string::*;

verus! {

/// How far the keyring holds a key, or what a key says of its owner, to
/// be valid.
#[derive(Clone, Copy, Debug, PartialEq, Eq, Structural)]
pub enum Validity {
    Unknown,
    Undefined,
    Never,
    Marginal,
    Full,
    Ultimate,
}

/// Whether the keyring accepts a key for encryption without warning: a
/// key whose owner is trusted ultimately, or one that is fully valid,
/// which is what a signature by a key of the keyring's owner makes it.
pub open spec fn is_trusted(owner_trust: Validity, validity: Validity) -> bool {
    owner_trust == Validity::Ultimate || validity == Validity::Full || validity
        == Validity::Ultimate
}

/// A key of the local keyring.
#[derive(Debug, PartialEq, Eq)]
pub struct Key {
    /// The fingerprint by which the key is known: upper-case hexadecimal
    /// digits.
    pub fingerprint: String,
    /// The primary user id, for people to read.
    pub user_id: String,
    /// Whether the keyring accepts the key for encryption without warning.
    pub trusted: bool,
}

impl Clone for Key {
    fn clone(&self) -> (r: Self)
        ensures
            r == *self,
    {
        Key {
            fingerprint: self.fingerprint.clone(),
            user_id: self.user_id.clone(),
            trusted: self.trusted,
        }
    }
}

impl Key {
    /// A key as the engine describes it: with its fingerprint, its
    /// primary user id, the trust in its owner and the validity of that
    /// user id.
    pub fn from_engine(
        fingerprint: String,
        user_id: String,
        owner_trust: Validity,
        validity: Validity,
    ) -> (key: Key)
        ensures
            key.fingerprint == fingerprint,
            key.user_id == user_id,
            key.trusted == is_trusted(owner_trust, validity),
    {
        let trusted = match owner_trust {
            Validity::Ultimate => true,
            _ => match validity {
                Validity::Full => true,
                Validity::Ultimate => true,
                _ => false,
            },
        };
        Key { fingerprint, user_id, trusted }
    }

    /// How a key is shown to people: its user id, then its fingerprint in
    /// brackets.
    pub open spec fn label_text(self) -> Seq<char> {
        self.user_id@ + " ("@ + self.fingerprint@ + ")"@
    }

    /// The text that shows this key to people.
    pub fn label(&self) -> (r: String)
        ensures
            r@ == self.label_text(),
    {
        let mut r = join3(self.user_id.as_str(), " (", self.fingerprint.as_str());
        r.append(")");
        r
    }
}

/// The labels of a list of keys, with a comma and a space between two.
pub open spec fn keys_text(keys: Seq<Key>) -> Seq<char>
    decreases keys.len(),
{
    if keys.len() == 0 {
        Seq::empty()
    } else if keys.len() == 1 {
        keys[0].label_text()
    } else {
        keys_text(keys.drop_last()) + ", "@ + keys.last().label_text()
    }
}

/// The text that shows a list of keys to people.
pub fn keys_label(keys: &Vec<Key>) -> (r: String)
    ensures
        r@ == keys_text(keys@),
{
    let mut r = String::new();
    let mut i: usize = 0;
    while i < keys.len()
        invariant
            i <= keys.len(),
            r@ == keys_text(keys@.take(i as int)),
        decreases keys.len() - i,
    {
        proof {
            assert(keys@.take(i + 1).drop_last() =~= keys@.take(i as int));
            assert(keys@.take(i + 1).last() == keys@[i as int]);
        }
        if i > 0 {
            r.append(", ");
        }
        let label = keys[i].label();
        r.append(label.as_str());
        proof {
            if i == 0 {
                assert(Seq::<char>::empty() + keys@[0].label_text() =~= keys@[0].label_text());
            }
        }
        i += 1;
    }
    proof {
        assert(keys@.take(keys.len() as int) =~= keys@);
    }
    r
}

/// A copy of a list of keys.
pub fn copy_keys(v: &Vec<Key>) -> (r: Vec<Key>)
    ensures
        r@ == v@,
{
    let r = v.clone();
    assert(r@ =~= v@);
    r
}

/// Whether `c` is a hexadecimal digit, with letters in upper case.
pub open spec fn is_hex_digit(c: char) -> bool {
    ('0' <= c <= '9') || ('A' <= c <= 'F')
}

/// Whether a text is a fingerprint: 40 or 64 hexadecimal digits, with
/// letters in upper case, and nothing else.
pub open spec fn is_fingerprint(text: Seq<char>) -> bool {
    (text.len() == 40 || text.len() == 64) && forall|i: int|
        0 <= i < text.len() ==> is_hex_digit(#[trigger] text[i])
}

/// Whether each text of a list is a fingerprint.
pub open spec fn all_fingerprints(list: Seq<Seq<char>>) -> bool {
    forall|i: int| 0 <= i < list.len() ==> is_fingerprint(#[trigger] list[i])
}

/// Whether the text at `at` is the first of a list that is no
/// fingerprint.
pub open spec fn is_first_bad_fingerprint(list: Seq<Seq<char>>, at: int) -> bool {
    &&& 0 <= at < list.len()
    &&& !is_fingerprint(list[at])
    &&& forall|j: int| 0 <= j < at ==> is_fingerprint(#[trigger] list[j])
}

/// The fingerprints of some keys.
pub open spec fn fingerprints(keys: Seq<Key>) -> Seq<Seq<char>> {
    keys.map_values(|key: Key| key.fingerprint@)
}

/// Whether a text is a fingerprint.
pub fn is_fingerprint_text(text: &str) -> (r: bool)
    ensures
        r == is_fingerprint(text@),
{
    if !text.is_ascii() {
        proof {
            let i = choose|i: int|
                0 <= i < text@.len() && !('\0' <= #[trigger] text@[i] <= '\u{7f}');
            assert(!is_hex_digit(text@[i]));
        }
        return false;
    }
    proof {
        is_ascii_chars_encode_utf8(text@);
    }
    let bytes = text.as_bytes();
    let n = bytes.len();
    if n != 40 && n != 64 {
        return false;
    }
    let mut i: usize = 0;
    while i < n
        invariant
            is_ascii_chars(text@),
            bytes@ == bytes_of(text@),
            n == text@.len(),
            n == bytes@.len(),
            i <= n,
            forall|j: int| 0 <= j < i ==> is_hex_digit(#[trigger] text@[j]),
        decreases n - i,
    {
        let b = bytes[i];
        proof {
            is_ascii_chars_encode_utf8(text@);
            assert(b == text@[i as int] as u8);
        }
        if !((48u8 <= b && b <= 57u8) || (65u8 <= b && b <= 70u8)) {
            assert(!is_hex_digit(text@[i as int]));
            return false;
        }
        assert(is_hex_digit(text@[i as int]));
        i += 1;
    }
    true
}

/// The place of the first text of a list that is no fingerprint, if there
/// is one.
pub fn first_bad_fingerprint(list: &Vec<String>) -> (r: Option<usize>)
    ensures
        match r {
            Some(at) => is_first_bad_fingerprint(texts(list@), at as int),
            None => all_fingerprints(texts(list@)),
        },
{
    let mut i: usize = 0;
    while i < list.len()
        invariant
            i <= list.len(),
            forall|j: int| 0 <= j < i ==> is_fingerprint(#[trigger] texts(list@)[j]),
        decreases list.len() - i,
    {
        if !is_fingerprint_text(list[i].as_str()) {
            assert(texts(list@)[i as int] == list@[i as int]@);
            return Some(i);
        }
        assert(texts(list@)[i as int] == list@[i as int]@);
        i += 1;
    }
    None
}

/// The place of the first key of a list whose fingerprint is none, if
/// there is one.
pub fn first_bad_key(keys: &Vec<Key>) -> (r: Option<usize>)
    ensures
        match r {
            Some(at) => is_first_bad_fingerprint(fingerprints(keys@), at as int),
            None => all_fingerprints(fingerprints(keys@)),
        },
{
    let mut i: usize = 0;
    while i < keys.len()
        invariant
            i <= keys.len(),
            forall|j: int| 0 <= j < i ==> is_fingerprint(#[trigger] fingerprints(keys@)[j]),
        decreases keys.len() - i,
    {
        if !is_fingerprint_text(keys[i].fingerprint.as_str()) {
            assert(fingerprints(keys@)[i as int] == keys@[i as int].fingerprint@);
            return Some(i);
        }
        assert(fingerprints(keys@)[i as int] == keys@[i as int].fingerprint@);
        i += 1;
    }
    None
}

} // verus!
