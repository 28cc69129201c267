//! Network addresses of servers.

pub mod lists;
pub mod low_level;
pub mod proto;
pub mod text;

use vstd::prelude::*;
use self::text::{int_text, parse_i32, parse_i32_spec, i32_text, lemma_int_text_parses, signed_value, nat_digits, all_digits, lemma_nat_digits, is_digit};

verus! {

/// A server's address: a host and a port.
#[derive(Hash, Debug)]
pub struct Address {
    pub host: String,
    pub port: i32,
}

/// What an `Address` holds, as plain values.
pub struct AddressView {
    pub host: Seq<char>,
    pub port: i32,
}

impl View for Address {
    type V = AddressView;

    open spec fn view(&self) -> AddressView {
        AddressView { host: self.host@, port: self.port }
    }
}

impl PartialEq for Address {
    fn eq(&self, other: &Self) -> (r: bool) {
        self.host == other.host && self.port == other.port
    }
}

impl Eq for Address {}

impl vstd::std_specs::cmp::PartialEqSpecImpl for Address {
    open spec fn obeys_eq_spec() -> bool {
        true
    }

    open spec fn eq_spec(&self, other: &Self) -> bool {
        self.host@ == other.host@ && self.port == other.port
    }
}

impl Clone for Address {
    fn clone(&self) -> (r: Self)
        ensures
            r@ == self@,
    {
        Address { host: self.host.clone(), port: self.port }
    }
}

/// The number of `':'` characters in a text.
pub open spec fn count_colons(s: Seq<char>) -> nat
    decreases s.len(),
{
    if s.len() == 0 {
        0
    } else {
        count_colons(s.drop_last()) + if s.last() == ':' { 1nat } else { 0nat }
    }
}

/// How an address is written: the host, a `':'`, then the port in decimal.
pub open spec fn address_text(a: AddressView) -> Seq<char> {
    a.host + seq![':'] + int_text(a.port as int)
}

/// How a websocket URL to an address is written.
pub open spec fn ws_url_text(a: AddressView) -> Seq<char> {
    "ws://"@ + address_text(a)
}

/// The outcome of reading an address from a text whose only `':'` stands at
/// index `i`.
pub open spec fn address_from_parts(s: Seq<char>, i: int) -> Result<AddressView, Seq<char>> {
    match parse_i32_spec(s.skip(i + 1)) {
        Some(p) => Ok(AddressView { host: s.take(i), port: p }),
        None => Err("Invalid port number"@),
    }
}

proof fn lemma_count_colons_append(a: Seq<char>, b: Seq<char>)
    ensures
        count_colons(a + b) == count_colons(a) + count_colons(b),
    decreases b.len(),
{
    if b.len() > 0 {
        lemma_count_colons_append(a, b.drop_last());
        assert((a + b).drop_last() =~= a + b.drop_last());
    } else {
        assert(a + b =~= a);
    }
}

proof fn lemma_no_colons_in_int_text(v: int)
    ensures
        count_colons(int_text(v)) == 0,
{
    let n: nat = if v < 0 { (-v) as nat } else { v as nat };
    lemma_nat_digits(n);
    lemma_digits_no_colon(nat_digits(n));
    if v < 0 {
        lemma_count_colons_append(seq!['-'], nat_digits(n));
        assert(seq!['-'].drop_last() =~= Seq::<char>::empty());
        assert(count_colons(Seq::<char>::empty()) == 0);
        assert(count_colons(seq!['-']) == 0);
    }
}

proof fn lemma_digits_no_colon(s: Seq<char>)
    requires
        all_digits(s),
    ensures
        count_colons(s) == 0,
    decreases s.len(),
{
    if s.len() > 0 {
        assert(is_digit(s[s.len() - 1]));
        lemma_digits_no_colon(s.drop_last());
    }
}

impl Address {
    pub fn new(host: String, port: i32) -> (r: Self)
        ensures
            r@ == (AddressView { host: host@, port }),
    {
        Address { host, port }
    }

    /// The websocket URL of this address, `ws://host:port`.
    pub fn build_ws_url(&self) -> (r: String)
        ensures
            r@ == ws_url_text(self@),
    {
        let mut out = String::new();
        out.append("ws://");
        out.append(self.host.as_str());
        out.append(":");
        let port = i32_text(self.port);
        out.append(port.as_str());
        proof {
            reveal_strlit("ws://");
            reveal_strlit(":");
            assert(out@ =~= ws_url_text(self@));
        }
        out
    }

    /// Reads `host:port`. The text must hold exactly one `':'`, and what
    /// follows it must be a port that `str::parse::<i32>` accepts.
    pub fn from_str(s: &str) -> (r: Result<Address, String>)
        ensures
            count_colons(s@) != 1 ==> (r matches Err(e) && e@ == "Invalid address format"@),
            count_colons(s@) == 1 ==> forall|i: int|
                0 <= i < s@.len() && s@[i] == ':' ==> match (r, address_from_parts(s@, i)) {
                    (Ok(a), Ok(v)) => a@ == v,
                    (Err(e), Err(m)) => e@ == m,
                    _ => false,
                },
    {
        let n = s.unicode_len();
        let mut count: usize = 0;
        let mut at: usize = 0;
        let mut j: usize = 0;
        while j < n
            invariant
                j <= n,
                n == s@.len(),
                count == count_colons(s@.take(j as int)),
                count <= j,
                count >= 1 ==> at < j && s@[at as int] == ':',
                count == 0 ==> forall|k: int| 0 <= k < j ==> s@[k] != ':',
                count == 1 ==> forall|k: int| 0 <= k < j && s@[k] == ':' ==> k == at,
            decreases n - j,
        {
            let c = s.get_char(j);
            proof {
                assert(s@.take(j + 1).drop_last() =~= s@.take(j as int));
            }
            if c == ':' {
                if count == 0 {
                    at = j;
                }
                count = count + 1;
            }
            j = j + 1;
        }
        proof {
            assert(s@.take(n as int) =~= s@);
        }
        if count != 1 {
            proof {
                reveal_strlit("Invalid address format");
            }
            return Err("Invalid address format".to_owned());
        }
        let host = s.substring_char(0, at).to_owned();
        let rest = s.substring_char(at + 1, n);
        proof {
            assert(rest@ =~= s@.skip(at + 1));
            assert(host@ =~= s@.take(at as int));
        }
        match parse_i32(rest) {
            Some(port) => Ok(Address { host, port }),
            None => {
                proof {
                    reveal_strlit("Invalid port number");
                }
                Err("Invalid port number".to_owned())
            },
        }
    }

    /// `host:port`.
    pub fn to_string(&self) -> (r: String)
        ensures
            r@ == address_text(self@),
    {
        let mut out = self.host.clone();
        out.append(":");
        let port = i32_text(self.port);
        out.append(port.as_str());
        proof {
            reveal_strlit(":");
            assert(out@ =~= address_text(self@));
        }
        out
    }
}

/// Reading back the text of an address whose host holds no `':'` gives the
/// address.
pub proof fn lemma_address_text_round_trip(a: AddressView)
    requires
        count_colons(a.host) == 0,
    ensures
        count_colons(address_text(a)) == 1,
        address_text(a)[a.host.len() as int] == ':',
        address_from_parts(address_text(a), a.host.len() as int) == Ok::<AddressView, Seq<char>>(a),
{
    let t = address_text(a);
    let i = a.host.len() as int;
    lemma_no_colons_in_int_text(a.port as int);
    lemma_count_colons_append(a.host, seq![':']);
    assert(seq![':'].drop_last() =~= Seq::<char>::empty());
    assert(count_colons(Seq::<char>::empty()) == 0);
    assert(count_colons(seq![':']) == 1);
    lemma_count_colons_append(a.host + seq![':'], int_text(a.port as int));
    assert(t.skip(i + 1) =~= int_text(a.port as int));
    assert(t.take(i) =~= a.host);
    lemma_int_text_parses(a.port as int);
}

} // verus!
