use vstd::prelude::*;
use vstd::string::StringExecFns;

verus! {

/// A 32-byte account address.
pub type Address = Vec<u8>;

/// A 32-byte domain-separator salt.
pub type Salt = Vec<u8>;

/// The value kinds a structured-hash encoder distinguishes.
pub enum EncodedValues {
    Bool(bool),
    Integer,
    Address,
    Bytes,
    String,
    Array,
}

/// The canonical field list of a type signature: each field as its type, one
/// space, and its name, the fields joined by commas.
pub open spec fn fields_spec(names: Seq<Seq<char>>, types: Seq<Seq<char>>) -> Seq<char>
    decreases names.len(),
{
    if names.len() == 0 {
        Seq::empty()
    } else if names.len() == 1 {
        types[0] + " "@ + names[0]
    } else {
        fields_spec(names.drop_last(), types.drop_last()) + ","@ + types[names.len() - 1] + " "@
            + names[names.len() - 1]
    }
}

/// The canonical type signature: the type name, then the field list in
/// parentheses.
pub open spec fn encoding_spec(name: Seq<char>, names: Seq<Seq<char>>, types: Seq<Seq<char>>)
    -> Seq<char> {
    name + "("@ + fields_spec(names, types) + ")"@
}

/// The views of a list of string slices.
pub open spec fn str_views(s: Seq<&str>) -> Seq<Seq<char>> {
    Seq::new(s.len(), |i: int| s[i]@)
}

/// Builds the canonical type signature of a record type from its name and
/// its fields' names and types, in declaration order.
pub fn encode_type_signature(name: &str, input_names: &Vec<&str>, input_types: &Vec<&str>) -> (r:
    String)
    requires
        input_names@.len() == input_types@.len(),
    ensures
        r@ == encoding_spec(name@, str_views(input_names@), str_views(input_types@)),
{
    let mut out = name.to_owned();
    out.append("(");
    let n = input_names.len();
    let mut i: usize = 0;
    while i < n
        invariant
            i <= n,
            n == input_names@.len(),
            n == input_types@.len(),
            out@ == name@ + "("@ + fields_spec(
                str_views(input_names@.subrange(0, i as int)),
                str_views(input_types@.subrange(0, i as int)),
            ),
        decreases n - i,
    {
        if i > 0 {
            out.append(",");
        }
        out.append(input_types[i]);
        out.append(" ");
        out.append(input_names[i]);
        proof {
            let pnames = str_views(input_names@.subrange(0, i + 1));
            let ptypes = str_views(input_types@.subrange(0, i + 1));
            assert(pnames.drop_last() =~= str_views(input_names@.subrange(0, i as int)));
            assert(ptypes.drop_last() =~= str_views(input_types@.subrange(0, i as int)));
            assert(pnames[i as int] == input_names@[i as int]@);
            assert(ptypes[i as int] == input_types@[i as int]@);
            assert(out@ =~= name@ + "("@ + fields_spec(pnames, ptypes));
        }
        i += 1;
    }
    out.append(")");
    proof {
        assert(input_names@.subrange(0, n as int) =~= input_names@);
        assert(input_types@.subrange(0, n as int) =~= input_types@);
        assert(out@ =~= encoding_spec(name@, str_views(input_names@), str_views(input_types@)));
    }
    out
}

/// Canonical type-tagged hashing of an intent record: the type signature is
/// a function of the type alone, so distinct shapes separate their hash
/// domains.
pub trait StructuredHashIntentInterface: Sized {
    /// The record type's name.
    fn name() -> &'static str;

    /// The field names, in declaration order.
    fn input_names() -> Vec<&'static str>;

    /// The field types, in declaration order.
    fn input_types() -> Vec<&'static str>;

    /// The constraint names, in declaration order.
    fn constraint_names() -> Vec<&'static str>;

    /// The constraint field names, in declaration order.
    fn constraint_inputs() -> Vec<&'static str>;

    /// The canonical type signature of the record; the field name and type
    /// lists must pair up.
    fn encoding(&self) -> String;

    /// The type-tagged digest of the record under an optional domain
    /// separator.
    fn structured_hash(&self, domain_separator: Option<String>) -> Vec<u8>;
}

/// The decimal digits of a number, most significant first.
pub open spec fn dec_chars(n: nat) -> Seq<char>
    decreases n,
{
    if n < 10 {
        seq![digit_char(n)]
    } else {
        dec_chars(n / 10) + seq![digit_char(n % 10)]
    }
}

/// The character of one decimal digit.
pub open spec fn digit_char(d: nat) -> char {
    seq!['0', '1', '2', '3', '4', '5', '6', '7', '8', '9'][d as int]
}

/// Writes a number in decimal.
pub fn u64_to_dec_string(n: u64) -> (r: String)
    ensures
        r@ == dec_chars(n as nat),
    decreases n,
{
    if n < 10 {
        let digit = match n {
            0 => "0",
            1 => "1",
            2 => "2",
            3 => "3",
            4 => "4",
            5 => "5",
            6 => "6",
            7 => "7",
            8 => "8",
            _ => "9",
        };
        let r = digit.to_owned();
        proof {
            reveal_strlit("0");
            reveal_strlit("1");
            reveal_strlit("2");
            reveal_strlit("3");
            reveal_strlit("4");
            reveal_strlit("5");
            reveal_strlit("6");
            reveal_strlit("7");
            reveal_strlit("8");
            reveal_strlit("9");
            assert(r@ =~= seq![digit_char(n as nat)]);
        }
        r
    } else {
        let mut r = u64_to_dec_string(n / 10);
        let last = u64_to_dec_string(n % 10);
        r.append(last.as_str());
        r
    }
}

/// The character of one hexadecimal digit.
pub open spec fn hex_digit_char(d: nat) -> char {
    seq![
        '0',
        '1',
        '2',
        '3',
        '4',
        '5',
        '6',
        '7',
        '8',
        '9',
        'a',
        'b',
        'c',
        'd',
        'e',
        'f',
    ][d as int]
}

/// The lowercase hexadecimal writing of a byte string: two digits per byte,
/// high digit first.
pub open spec fn hex_chars(b: Seq<u8>) -> Seq<char> {
    Seq::new(
        2 * b.len(),
        |i: int|
            if i % 2 == 0 {
                hex_digit_char((b[i / 2] / 16) as nat)
            } else {
                hex_digit_char((b[i / 2] % 16) as nat)
            },
    )
}

/// Relies on hex::encode: the lowercase hexadecimal writing of the bytes,
/// two digits per byte, high digit first.
#[verifier::external_body]
fn hex_encode(b: &Vec<u8>) -> (r: String)
    ensures
        r@ == hex_chars(b@),
{
    hex::encode(b.as_slice())
}

/// An EIP-712-style signing domain: its fields separate otherwise identical
/// messages signed for different applications, versions and chains.
#[derive(Debug)]
pub struct EIP712Domain {
    name: String,
    version: u32,
    chain_id: u16,
    verifying_contract: Address,
    salt: Salt,
}

impl EIP712Domain {
    /// The domain's salt bytes.
    pub closed spec fn salt_seq(&self) -> Seq<u8> {
        self.salt@
    }

    /// The domain's contract address bytes.
    pub closed spec fn contract_seq(&self) -> Seq<u8> {
        self.verifying_contract@
    }

    /// The domain's name.
    pub closed spec fn name_seq(&self) -> Seq<char> {
        self.name@
    }

    /// The domain's version.
    pub closed spec fn version_spec(&self) -> u32 {
        self.version
    }

    /// The domain's chain identifier.
    pub closed spec fn chain_id_spec(&self) -> u16 {
        self.chain_id
    }

    /// Builds a domain; a missing salt is drawn at random.
    pub fn new(
        name: String,
        version: u32,
        chain_id: u16,
        verifying_contract: Address,
        salt: Option<Salt>,
    ) -> (r: EIP712Domain)
        requires
            verifying_contract@.len() == 32,
            salt matches Some(s) ==> s@.len() == 32,
        ensures
            r.name_seq() == name@,
            r.version_spec() == version,
            r.chain_id_spec() == chain_id,
            r.contract_seq() == verifying_contract@,
            r.salt_seq().len() == 32,
            salt matches Some(s) ==> r.salt_seq() == s@,
    {
        let salt = match salt {
            Some(s) => s,
            None => crate::keys::random_salt(),
        };
        EIP712Domain { name, version, chain_id, verifying_contract, salt }
    }

    /// Writes the domain as its canonical separator string: each field
    /// labeled, addresses and salts in lowercase hexadecimal.
    pub fn to_domain_separator_string(&self) -> (r: String)
        ensures
            r@ == "<EIP712DOMAIN><name:"@ + self.name_seq() + "><version:"@ + dec_chars(
                self.version_spec() as nat,
            ) + "><chain_id:"@ + dec_chars(self.chain_id_spec() as nat) + "><verifying_contract:"@
                + hex_chars(self.contract_seq()) + "><salt:"@ + hex_chars(self.salt_seq())
                + ">"@,
    {
        let mut out = "<EIP712DOMAIN><name:".to_owned();
        out.append(self.name.as_str());
        out.append("><version:");
        let version_str = u64_to_dec_string(self.version as u64);
        out.append(version_str.as_str());
        out.append("><chain_id:");
        let chain_str = u64_to_dec_string(self.chain_id as u64);
        out.append(chain_str.as_str());
        out.append("><verifying_contract:");
        let contract_hex = hex_encode(&self.verifying_contract);
        out.append(contract_hex.as_str());
        out.append("><salt:");
        let salt_hex = hex_encode(&self.salt);
        out.append(salt_hex.as_str());
        out.append(">");
        out
    }
}

} // verus!
