//! ASN enrichment: the lookup names sent to the resolver, and the parsing
//! of the answers.  The DNS queries themselves are the caller's concern.
//!
//! The resolver's answers are pipe-separated records; the first field of an
//! origin answer holds the ASN (further space-separated numbers may follow
//! it), and the surrounding spaces of every field are trimmed.

use vstd::prelude::*;
use vstd::string::StrSliceExecFns;
use vstd::string::StringExecFns;
use crate::errors::ConstellationBGPError;

verus! {

/// Split `s@` at every occurrence of `sep`, like the original record
/// splitting.
pub open spec fn split_on(s: Seq<char>, sep: char) -> Seq<Seq<char>>
    decreases s.len(),
{
    let n = prefix_free_len(s, sep);
    if n >= s.len() {
        seq![s]
    } else {
        seq![s.take(n as int)] + split_on(s.skip(n as int + 1), sep)
    }
}

/// Length of the longest prefix free of `sep`.
pub open spec fn prefix_free_len(s: Seq<char>, sep: char) -> nat
    decreases s.len(),
{
    if s.len() == 0 || s[0] == sep {
        0nat
    } else {
        (prefix_free_len(s.skip(1), sep) + 1) as nat
    }
}

/// `s@` with leading and trailing spaces removed.
pub open spec fn spec_trim(s: Seq<char>) -> Seq<char>
    decreases s.len(),
{
    if s.len() == 0 {
        s
    } else if s[0] == ' ' {
        spec_trim(s.skip(1))
    } else if s.last() == ' ' {
        spec_trim(s.drop_last())
    } else {
        s
    }
}

/// Trim the surrounding spaces of a field.
pub fn trim(s: &str) -> (r: String)
    ensures
        r@ == spec_trim(s@),
{
    let total = s.unicode_len();
    let mut lo: usize = 0;
    let mut hi: usize = total;
    proof {
        assert(s@.subrange(0, total as int) =~= s@);
    }
    while lo < hi && s.get_char(lo) == ' '
        invariant
            lo <= hi <= total,
            total == s@.len(),
            spec_trim(s@) == spec_trim(s@.subrange(lo as int, hi as int)),
            hi == total,
        decreases hi - lo,
    {
        proof {
            assert(s@.subrange(lo as int, hi as int).skip(1) =~= s@.subrange(
                lo as int + 1,
                hi as int,
            ));
        }
        lo = lo + 1;
    }
    while lo < hi && s.get_char(hi - 1) == ' '
        invariant
            lo <= hi <= total,
            total == s@.len(),
            lo == hi || s@[lo as int] != ' ',
            spec_trim(s@) == spec_trim(s@.subrange(lo as int, hi as int)),
        decreases hi,
    {
        proof {
            let part = s@.subrange(lo as int, hi as int);
            assert(part[0] != ' ' || part.len() == 0 || true);
            assert(part.drop_last() =~= s@.subrange(lo as int, hi as int - 1));
        }
        hi = hi - 1;
    }
    proof {
        let part = s@.subrange(lo as int, hi as int);
        if part.len() > 0 {
            assert(part[0] != ' ');
            assert(part.last() != ' ');
        }
        assert(spec_trim(part) == part);
    }
    s.substring_char(lo, hi).to_owned()
}

/// The reversed-octet origin lookup name for an IPv4 address, or the bad-IP
/// error when the address does not have four dot-separated parts.
pub fn asn_query_hostname(ip: &str) -> (r: Result<String, ConstellationBGPError>)
    ensures
        match r {
            Ok(h) => split_on(ip@, '.').len() == 4 && h@ == split_on(ip@, '.')[3] + "."@ + split_on(
                ip@,
                '.',
            )[2] + "."@ + split_on(ip@, '.')[1] + "."@ + split_on(ip@, '.')[0]
                + ".origin.asn.cymru.com."@,
            Err(e) => split_on(ip@, '.').len() != 4 && (e matches ConstellationBGPError::BadIp(b)
                && b@ == ip@),
        },
{
    let parts = split_string(ip, '.');
    if parts.len() != 4 {
        return Err(ConstellationBGPError::BadIp(String::from_str(ip)));
    }
    let h = parts[3].clone().concat(".").concat(parts[2].as_str()).concat(".").concat(
        parts[1].as_str(),
    ).concat(".").concat(parts[0].as_str()).concat(".origin.asn.cymru.com.");
    proof {
        assert(h@ == parts@[3]@ + "."@ + parts@[2]@ + "."@ + parts@[1]@ + "."@ + parts@[0]@
            + ".origin.asn.cymru.com."@);
    }
    Ok(h)
}

/// The details lookup name for an ASN.
pub fn asn_details_hostname(asn: &str) -> (r: String)
    ensures
        r@ == "as"@ + asn@ + ".asn.cymru.com."@,
{
    String::from_str("as").concat(asn).concat(".asn.cymru.com.")
}

/// Split a string at every occurrence of `sep`.
pub fn split_string(s: &str, sep: char) -> (r: Vec<String>)
    ensures
        r@.map_values(|x: String| x@) == split_on(s@, sep),
{
    let total = s.unicode_len();
    let mut out: Vec<String> = Vec::new();
    let mut start: usize = 0;
    proof {
        assert(s@.skip(0) =~= s@);
        assert(r_prefix_view(out@) =~= Seq::<Seq<char>>::empty());
        assert(Seq::<Seq<char>>::empty() + split_on(s@, sep) =~= split_on(s@, sep));
    }
    loop
        invariant_except_break
            start <= total,
            total == s@.len(),
            split_on(s@, sep) == r_prefix_view(out@) + split_on(s@.skip(start as int), sep),
        invariant
            total == s@.len(),
        ensures
            r_prefix_view(out@) == split_on(s@, sep),
        decreases total - start,
    {
        let mut i: usize = start;
        while i < total
            invariant
                start <= i <= total,
                total == s@.len(),
                prefix_free_len(s@.skip(start as int), sep) == i - start + prefix_free_len(
                    s@.skip(i as int),
                    sep,
                ),
            ensures
                start <= i <= total,
                prefix_free_len(s@.skip(start as int), sep) == i - start,
            decreases total - i,
        {
            if s.get_char(i) == sep {
                assert(s@.skip(i as int)[0] == sep);
                assert(prefix_free_len(s@.skip(i as int), sep) == 0);
                break;
            }
            proof {
                assert(s@.skip(i as int)[0] == s@[i as int]);
                assert(s@.skip(i as int).skip(1) =~= s@.skip(i as int + 1));
            }
            i = i + 1;
        }
        let piece = s.substring_char(start, i).to_owned();
        let ghost prev = out@;
        out.push(piece);
        proof {
            let suffix = s@.skip(start as int);
            assert(suffix.take(i as int - start as int) =~= s@.subrange(start as int, i as int));
            assert(r_prefix_view(out@) =~= r_prefix_view(prev) + seq![s@.subrange(
                start as int,
                i as int,
            )]);
        }
        if i == total {
            proof {
                let suffix = s@.skip(start as int);
                assert(prefix_free_len(suffix, sep) >= suffix.len());
                assert(split_on(suffix, sep) =~= seq![suffix]);
                assert(s@.subrange(start as int, i as int) =~= suffix);
            }
            break;
        }
        proof {
            let suffix = s@.skip(start as int);
            let n = prefix_free_len(suffix, sep) as int;
            assert(n < suffix.len());
            assert(split_on(suffix, sep) =~= seq![suffix.take(n)] + split_on(
                suffix.skip(n + 1),
                sep,
            ));
            assert(suffix.skip(n + 1) =~= s@.skip(i as int + 1));
        }
        start = i + 1;
    }
    proof {
        assert(out@.map_values(|x: String| x@) == r_prefix_view(out@));
    }
    out
}

/// The images of the split pieces.
pub open spec fn r_prefix_view(v: Seq<String>) -> Seq<Seq<char>> {
    v.map_values(|x: String| x@)
}

} // verus!
