//! Serialization of the response payload as a JSON object with the
//! fields `RequestID` (string) and `TimestampChain` (array of strings).
//!
//! The payload's strings are emitted verbatim: the library only ever
//! serializes the fixed identifier and decimal digit strings, which need
//! no JSON escaping.

use crate::response::ResponsePayload;
use vstd::prelude::*;
use vstd::string::*;

verus! {

/// The views of a vector of strings, in order.
pub open spec fn chain_views(v: Seq<String>) -> Seq<Seq<char>> {
    Seq::new(v.len(), |i: int| v[i]@)
}

/// The JSON encoding of the timestamp array's elements: each entry
/// quoted, separated by commas.
pub open spec fn json_chain(chain: Seq<Seq<char>>) -> Seq<char>
    decreases chain.len(),
{
    if chain.len() == 0 {
        Seq::empty()
    } else if chain.len() == 1 {
        "\""@ + chain[0] + "\""@
    } else {
        "\""@ + chain[0] + "\""@ + ","@ + json_chain(chain.skip(1))
    }
}

/// The JSON object for an identifier and a timestamp chain.
pub open spec fn json_of(id: Seq<char>, chain: Seq<Seq<char>>) -> Seq<char> {
    "{\"RequestID\":\""@ + id + "\",\"TimestampChain\":["@ + json_chain(chain) + "]}"@
}

proof fn lemma_json_chain_push(chain: Seq<Seq<char>>, x: Seq<char>)
    ensures
        json_chain(chain.push(x)) == if chain.len() == 0 {
            "\""@ + x + "\""@
        } else {
            json_chain(chain) + ","@ + ("\""@ + x + "\""@)
        },
    decreases chain.len(),
{
    let w = chain.push(x);
    if chain.len() == 0 {
        assert(w.len() == 1);
        assert(w[0] == x);
    } else if chain.len() == 1 {
        assert(w.len() == 2);
        assert(w[0] == chain[0]);
        assert(w.skip(1) =~= seq![x]);
        assert(json_chain(seq![x]) == "\""@ + x + "\""@);
        assert(json_chain(w) =~= json_chain(chain) + ","@ + ("\""@ + x + "\""@));
    } else {
        assert(w[0] == chain[0]);
        assert(w.skip(1) =~= chain.skip(1).push(x));
        lemma_json_chain_push(chain.skip(1), x);
        assert(json_chain(w) =~= json_chain(chain) + ","@ + ("\""@ + x + "\""@));
    }
}

/// Serializes a payload: the exact JSON text, fields in order, no
/// whitespace, each string emitted verbatim.
pub fn to_json(p: &ResponsePayload) -> (s: String)
    ensures
        s@ == json_of(p.request_id@, chain_views(p.timestamp_chain@)),
{
    let ghost chain = chain_views(p.timestamp_chain@);
    let mut s = String::new();
    s.append("{\"RequestID\":\"");
    s.append(p.request_id.as_str());
    s.append("\",\"TimestampChain\":[");
    proof {
        assert(s@ =~= "{\"RequestID\":\""@ + p.request_id@ + "\",\"TimestampChain\":["@
            + json_chain(chain.take(0)));
    }
    let mut i: usize = 0;
    while i < p.timestamp_chain.len()
        invariant
            i <= p.timestamp_chain@.len(),
            chain == chain_views(p.timestamp_chain@),
            s@ == "{\"RequestID\":\""@ + p.request_id@ + "\",\"TimestampChain\":["@ + json_chain(
                chain.take(i as int),
            ),
        decreases p.timestamp_chain@.len() - i,
    {
        if i > 0 {
            s.append(",");
        }
        s.append("\"");
        s.append(p.timestamp_chain[i].as_str());
        s.append("\"");
        proof {
            assert(chain.take(i as int).push(chain[i as int]) =~= chain.take(i + 1));
            lemma_json_chain_push(chain.take(i as int), chain[i as int]);
            assert(chain[i as int] == p.timestamp_chain@[i as int]@);
            assert(s@ =~= "{\"RequestID\":\""@ + p.request_id@ + "\",\"TimestampChain\":["@
                + json_chain(chain.take(i + 1)));
        }
        i = i + 1;
    }
    s.append("]}");
    proof {
        assert(chain.take(chain.len() as int) =~= chain);
        assert(s@ =~= json_of(p.request_id@, chain));
    }
    s
}

} // verus!
