//! The printable-string extractor: scan binary data for maximal runs of
//! printable ASCII bytes of a minimum length.

use vstd::prelude::*;
use vstd::string::StringExecFns;
use crate::text::push_line;

verus! {

/// Printable ASCII: space through tilde.
pub open spec fn is_printable(b: u8) -> bool {
    0x20 <= b <= 0x7e
}

/// The characters spelled by a run of ASCII bytes.
pub open spec fn chars_of_bytes(bs: Seq<u8>) -> Seq<char> {
    bs.map_values(|b: u8| b as char)
}

/// The printable runs of length at least `min_len` in `data`, given the run
/// collected so far: a non-printable byte (or the end of the data) closes the
/// current run, which is kept only if long enough.
pub open spec fn spec_extract_runs(data: Seq<u8>, cur: Seq<u8>, min_len: nat) -> Seq<Seq<u8>>
    decreases data.len(),
{
    if data.len() == 0 {
        if cur.len() >= min_len {
            seq![cur]
        } else {
            Seq::empty()
        }
    } else if is_printable(data[0]) {
        spec_extract_runs(data.drop_first(), cur.push(data[0]), min_len)
    } else if cur.len() >= min_len {
        seq![cur] + spec_extract_runs(data.drop_first(), Seq::empty(), min_len)
    } else {
        spec_extract_runs(data.drop_first(), Seq::empty(), min_len)
    }
}

/// The strings extracted from `data`: its printable runs of length at least
/// `min_len`, each read as text.
pub open spec fn spec_extract_strings(data: Seq<u8>, min_len: nat) -> Seq<Seq<char>> {
    spec_extract_runs(data, Seq::empty(), min_len).map_values(|run: Seq<u8>| chars_of_bytes(run))
}

/// Relies on `String::from_utf8`: printable ASCII bytes are valid UTF-8 and
/// decode to exactly one character per byte.
#[verifier::external_body]
fn ascii_string(bytes: Vec<u8>) -> (r: String)
    requires
        forall|i: int| 0 <= i < bytes@.len() ==> is_printable(#[trigger] bytes@[i]),
    ensures
        r@ == chars_of_bytes(bytes@),
{
    String::from_utf8(bytes).unwrap_or_default()
}

/// Extract the printable strings of length at least `min_len` from binary
/// data, in order of appearance.
pub fn extract_strings(data: &Vec<u8>, min_len: usize) -> (r: Vec<String>)
    ensures
        r.deep_view() == spec_extract_strings(data@, min_len as nat),
{
    let n = data.len();
    let mut out: Vec<String> = Vec::new();
    let mut cur: Vec<u8> = Vec::new();
    let ghost mut runs: Seq<Seq<u8>> = Seq::empty();
    let mut i: usize = 0;
    proof {
        assert(data@.subrange(0, n as int) =~= data@);
        assert(cur@ =~= Seq::<u8>::empty());
    }
    while i < n
        invariant
            n == data@.len(),
            i <= n,
            forall|k: int| 0 <= k < cur@.len() ==> is_printable(#[trigger] cur@[k]),
            spec_extract_runs(data@, Seq::empty(), min_len as nat) == runs + spec_extract_runs(
                data@.subrange(i as int, n as int),
                cur@,
                min_len as nat,
            ),
            out@.len() == runs.len(),
            forall|k: int| 0 <= k < runs.len() ==> out.deep_view()[k] == chars_of_bytes(#[trigger] runs[k]),
        decreases n - i,
    {
        let ghost tail = data@.subrange(i as int, n as int);
        proof {
            assert(tail[0] == data@[i as int]);
            assert(tail.drop_first() =~= data@.subrange(i + 1, n as int));
        }
        let b = data[i];
        if 0x20 <= b && b <= 0x7e {
            cur.push(b);
        } else {
            if cur.len() >= min_len {
                let ghost run = cur@;
                let s = ascii_string(cur);
                push_line(&mut out, s);
                proof {
                    runs = runs.push(run);
                    assert((runs.drop_last() + (seq![run] + spec_extract_runs(
                        tail.drop_first(),
                        Seq::empty(),
                        min_len as nat,
                    ))) =~= runs + spec_extract_runs(
                        tail.drop_first(),
                        Seq::empty(),
                        min_len as nat,
                    ));
                }
                cur = Vec::new();
            } else {
                cur = Vec::new();
            }
            proof {
                assert(cur@ =~= Seq::<u8>::empty());
            }
        }
        i += 1;
    }
    proof {
        assert(data@.subrange(n as int, n as int).len() == 0);
    }
    if cur.len() >= min_len {
        let ghost run = cur@;
        let s = ascii_string(cur);
        push_line(&mut out, s);
        proof {
            runs = runs.push(run);
            assert(runs.drop_last() + seq![run] =~= runs);
        }
    } else {
        proof {
            assert(runs + Seq::<Seq<u8>>::empty() =~= runs);
        }
    }
    proof {
        assert(out.deep_view() =~= spec_extract_strings(data@, min_len as nat));
    }
    out
}

/// Each emitted string followed by a newline, in order.
pub open spec fn spec_joined_lines(lines: Seq<Seq<char>>) -> Seq<char>
    decreases lines.len(),
{
    if lines.len() == 0 {
        Seq::empty()
    } else {
        lines[0] + "\n"@ + spec_joined_lines(lines.drop_first())
    }
}

/// Render a list of strings as output text, one per line.
pub fn write_strings(strings: &Vec<String>) -> (r: String)
    ensures
        r@ == spec_joined_lines(strings.deep_view()),
{
    let ghost strings_view = strings.deep_view();
    let mut r = String::new();
    let mut i: usize = 0;
    let n = strings.len();
    proof {
        assert(strings_view.subrange(0, n as int) =~= strings_view);
        assert(r@ =~= Seq::<char>::empty());
    }
    while i < n
        invariant
            n == strings@.len(),
            strings_view == strings.deep_view(),
            i <= n,
            spec_joined_lines(strings_view) == r@ + spec_joined_lines(
                strings_view.subrange(i as int, n as int),
            ),
        decreases n - i,
    {
        proof {
            let tail = strings_view.subrange(i as int, n as int);
            assert(tail[0] == strings_view[i as int]);
            assert(tail.drop_first() =~= strings_view.subrange(i + 1, n as int));
        }
        let entry = &strings[i];
        r.append(entry.as_str());
        r.append("\n");
        proof {
            assert(spec_joined_lines(strings_view) =~= r@ + spec_joined_lines(
                strings_view.subrange(i + 1, n as int),
            ));
        }
        i += 1;
    }
    proof {
        assert(strings_view.subrange(n as int, n as int).len() == 0);
        assert(r@ + Seq::<char>::empty() =~= r@);
    }
    r
}

} // verus!
