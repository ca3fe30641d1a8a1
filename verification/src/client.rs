//! Client-side pieces: the cleartext secret a result query returns, the
//! share bundles a client collects, and the parser for the computation
//! stack's reply.

use vstd::prelude::*;

verus! {

use crate::error::Error;
use vstd::string::StrSliceExecFns;
use vstd::utf8::{valid_utf8, encode_utf8};

/// A reconstructed cleartext value as the result query returns it.
#[derive(Debug, PartialEq, Eq)]
pub struct ClearTextSecret {
    pub result: String,
}

/// A tag attached to a stored secret.
#[derive(Debug, PartialEq, Eq)]
pub struct SecretTag {
    pub key: String,
    pub value: String,
    pub value_type: String,
}

/// One provider's share bundle as the client-facing share query carries it.
#[derive(Debug, PartialEq, Eq)]
pub struct SecretShare {
    pub secret_id: String,
    pub tags: Vec<SecretTag>,
    pub data: String,
    pub secret_shares: String,
    pub r_shares: String,
    pub v_shares: String,
    pub w_shares: String,
    pub u_shares: String,
}

/// The share bundles of all providers, in provider order; a provider that
/// has not answered yet contributes nothing.
#[derive(Debug, PartialEq, Eq)]
pub struct GetSecretSharesResult {
    pub result: Vec<Option<SecretShare>>,
}

/// The first line of a reply, with every bracket byte removed.
pub open spec fn parse_line(bs: Seq<u8>) -> Seq<u8>
    decreases bs.len(),
{
    if bs.len() == 0 {
        Seq::empty()
    } else if bs[0] == 10 {
        Seq::empty()
    } else if bs[0] == 91 || bs[0] == 93 {
        parse_line(bs.drop_first())
    } else {
        seq![bs[0]] + parse_line(bs.drop_first())
    }
}

/// Relies on String::from_utf8: it succeeds exactly on valid UTF-8 and
/// returns the string whose encoding is the input.
#[verifier::external_body]
fn string_from_utf8(bytes: Vec<u8>) -> (r: Result<String, Error>)
    ensures
        r matches Ok(s) ==> encode_utf8(s@) == bytes@,
        r is Ok <==> valid_utf8(bytes@),
{
    match String::from_utf8(bytes) {
        Ok(s) => Ok(s),
        Err(_) => Err(Error::MalformedInput),
    }
}

/// The rows accumulated while walking a text: the current row grows until
/// a newline byte closes it; a split always yields one row more than there
/// are separators.
pub open spec fn split_acc(bs: Seq<u8>, cur: Seq<u8>) -> Seq<Seq<u8>>
    decreases bs.len(),
{
    if bs.len() == 0 {
        seq![cur]
    } else if bs[0] == 10 {
        seq![cur] + split_acc(bs.drop_first(), Seq::empty())
    } else {
        split_acc(bs.drop_first(), cur.push(bs[0]))
    }
}

/// The rows of a text, split on the newline byte.
pub open spec fn split_rows(bs: Seq<u8>) -> Seq<Seq<u8>> {
    split_acc(bs, Seq::empty())
}

/// Split a text into its rows, as the upload path does with its csv body.
pub fn split_lines(s: &str) -> (res: Vec<String>)
    ensures
        res@.len() == split_rows(encode_utf8(s@)).len(),
        forall|i: int|
            0 <= i < res@.len() ==> {
                let row = split_rows(encode_utf8(s@))[i];
                &&& (valid_utf8(row) ==> encode_utf8((#[trigger] res@[i])@) == row)
                &&& (!valid_utf8(row) ==> res@[i]@ == Seq::<char>::empty())
            },
{
    let bytes = s.as_bytes_vec();
    let n = bytes.len();
    let ghost rows = split_rows(bytes@);
    let mut out: Vec<String> = Vec::new();
    let mut cur: Vec<u8> = Vec::new();
    let ghost mut done: Seq<Seq<u8>> = Seq::empty();
    let mut j: usize = 0;
    proof {
        assert(bytes@.skip(0) =~= bytes@);
    }
    while j < n
        invariant
            n == bytes@.len(),
            j <= n,
            rows == done + split_acc(bytes@.skip(j as int), cur@),
            out@.len() == done.len(),
            forall|i: int|
                0 <= i < done.len() ==> {
                    &&& (valid_utf8(#[trigger] done[i]) ==> encode_utf8(out@[i]@) == done[i])
                    &&& (!valid_utf8(done[i]) ==> out@[i]@ == Seq::<char>::empty())
                },
        decreases n - j,
    {
        let b = bytes[j];
        proof {
            let rest = bytes@.skip(j as int);
            assert(rest[0] == b);
            assert(rest.drop_first() =~= bytes@.skip(j as int + 1));
        }
        if b == 10 {
            let ghost curv = cur@;
            let finished = cur;
            cur = Vec::new();
            let row_string = match string_from_utf8(finished) {
                Ok(r) => r,
                Err(_) => String::new(),
            };
            out.push(row_string);
            proof {
                done = done.push(curv);
                assert(done + split_acc(bytes@.skip(j as int + 1), cur@) =~= (done.drop_last()
                    + (seq![curv] + split_acc(bytes@.skip(j as int + 1), Seq::empty()))));
            }
        } else {
            cur.push(b);
        }
        j = j + 1;
    }
    proof {
        assert(bytes@.skip(n as int) =~= Seq::<u8>::empty());
    }
    let ghost curv = cur@;
    let last = match string_from_utf8(cur) {
        Ok(r) => r,
        Err(_) => String::new(),
    };
    out.push(last);
    proof {
        assert(done.push(curv) =~= rows);
    }
    out
}

pub struct SecretUtils {}

impl SecretUtils {
    /// The cleartext the computation stack printed: its reply's first
    /// line, stripped of the surrounding brackets.
    pub fn parse_secret(resp: String) -> (res: ClearTextSecret)
        ensures
            valid_utf8(parse_line(encode_utf8(resp@))) ==> encode_utf8(res.result@) == parse_line(
                encode_utf8(resp@),
            ),
            !valid_utf8(parse_line(encode_utf8(resp@))) ==> res.result@ == Seq::<char>::empty(),
    {
        let bytes = resp.as_str().as_bytes_vec();
        let n = bytes.len();
        let mut acc: Vec<u8> = Vec::new();
        let mut done = false;
        let mut j: usize = 0;
        proof {
            assert(bytes@.skip(0) =~= bytes@);
        }
        while j < n
            invariant
                n == bytes@.len(),
                j <= n,
                !done ==> parse_line(bytes@) == acc@ + parse_line(bytes@.skip(j as int)),
                done ==> acc@ == parse_line(bytes@),
            decreases n - j,
        {
            let b = bytes[j];
            proof {
                let rest = bytes@.skip(j as int);
                assert(rest[0] == b);
                assert(rest.drop_first() =~= bytes@.skip(j as int + 1));
            }
            if !done {
                if b == 10 {
                    done = true;
                    proof {
                        assert(acc@ + parse_line(bytes@.skip(j as int)) =~= acc@);
                    }
                } else if b != 91 && b != 93 {
                    let ghost acc0 = acc@;
                    acc.push(b);
                    proof {
                        assert(acc0 + parse_line(bytes@.skip(j as int)) =~= acc@ + parse_line(
                            bytes@.skip(j as int + 1),
                        ));
                    }
                }
            }
            j = j + 1;
        }
        proof {
            if !done {
                assert(parse_line(bytes@.skip(n as int)) =~= Seq::<u8>::empty());
                assert(acc@ + parse_line(bytes@.skip(n as int)) =~= acc@);
            }
        }
        match string_from_utf8(acc) {
            Ok(result) => ClearTextSecret { result },
            Err(_) => ClearTextSecret { result: String::new() },
        }
    }
}

} // verus!
