//! Finding the JSON body in what a client sent, and framing the answer.

use crate::text::{append_decimal, decimal};
use vstd::prelude::*;
use vstd::string::StringExecFns;

verus! {

/// The blank line that ends HTTP headers starts at `i`.
pub open spec fn blank_line_at(data: Seq<u8>, i: int) -> bool {
    &&& 0 <= i
    &&& i + 4 <= data.len()
    &&& data[i] == 13u8
    &&& data[i + 1] == 10u8
    &&& data[i + 2] == 13u8
    &&& data[i + 3] == 10u8
}

/// Where the JSON body starts: after the first blank line (`\r\n\r\n`);
/// failing that, at the start if the data opens with `{`; otherwise
/// nowhere.
pub open spec fn json_body_start(data: Seq<u8>) -> Option<int> {
    if exists|i: int| #[trigger] blank_line_at(data, i) {
        let i = choose|i: int| #[trigger] blank_line_at(data, i) && forall|j: int| 0 <= j < i ==> !blank_line_at(data, j);
        Some(i + 4)
    } else if data.len() > 0 && data[0] == 123u8 {
        Some(0)
    } else {
        None
    }
}

/// The start of the JSON body in a request: after the headers' blank line,
/// or at the start when there are no headers and the data opens with `{`.
pub fn find_json_body(data: &[u8]) -> (r: Option<usize>)
    ensures
        match r {
            Some(start) => json_body_start(data@) == Some(start as int),
            None => json_body_start(data@) is None,
        },
{
    let n = data.len();
    let mut i: usize = 0;
    while n >= 4 && i <= n - 4
        invariant
            n == data@.len(),
            i <= n,
            forall|j: int| 0 <= j < i ==> !blank_line_at(data@, j),
        decreases n - i,
    {
        if data[i] == 13u8 && data[i + 1] == 10u8 && data[i + 2] == 13u8 && data[i + 3] == 10u8 {
            proof {
                assert(blank_line_at(data@, i as int));
                let k = choose|k: int| #[trigger] blank_line_at(data@, k) && forall|j: int| 0 <= j < k ==> !blank_line_at(data@, j);
                assert(blank_line_at(data@, i as int) && forall|j: int| 0 <= j < i ==> !blank_line_at(data@, j));
                if k < i {
                    assert(!blank_line_at(data@, k));
                } else if k > i {
                    assert(!blank_line_at(data@, i as int));
                }
            }
            return Some(i + 4);
        }
        proof {
            assert(!blank_line_at(data@, i as int));
        }
        i = i + 1;
    }
    proof {
        assert forall|j: int| !#[trigger] blank_line_at(data@, j) by {
            if 0 <= j < i {
            }
        }
    }
    if n > 0 && data[0] == 123u8 {
        Some(0)
    } else {
        None
    }
}

/// The HTTP answer carrying a JSON body: status 200, its content type and
/// its length in bytes.
pub fn http_ok_response(json: &str) -> (r: String)
    ensures
        r@ == "HTTP/1.1 200 OK\r\nContent-Type: application/json\r\nContent-Length: "@ + decimal(json.len() as nat)
            + "\r\n\r\n"@ + json@,
{
    let mut r = String::from_str("HTTP/1.1 200 OK\r\nContent-Type: application/json\r\nContent-Length: ");
    let n = json.len();
    append_decimal(&mut r, n as u64);
    r.append("\r\n\r\n");
    r.append(json);
    r
}

/// The answer when no JSON body is found.
pub fn http_bad_request() -> (r: String)
    ensures
        r@ == "HTTP/1.1 400 Bad Request\r\n\r\n"@,
{
    String::from_str("HTTP/1.1 400 Bad Request\r\n\r\n")
}

} // verus!
