//! Container and pod-network naming.
//!
//! A container's runtime name is `"{service}__{pod_number}__{container}__{uuid}"`
//! with four segments joined by `"__"`; a pod network is named
//! `"{service}__{uuid}"`.  Pod numbers are unsigned 8-bit decimals and the
//! uuid is in hyphenated form.  The parser splits on `"__"` and rejects any
//! other shape.

use vstd::prelude::*;

use crate::text::{
    dec_digits, is_hex_char, lemma_dec_digits_all_digits, lemma_dec_digits_val,
    lemma_split_sep_concat, lemma_split_sep_whole, parse_dec_u8, parse_u8_val, sep, split_sep,
    split_sep_ranges,
};

verus! {

/// A hyphenated uuid: 36 characters, hyphens at positions 8, 13, 18 and 23,
/// hexadecimal digits elsewhere.
pub open spec fn is_uuid_seq(s: Seq<char>) -> bool {
    &&& s.len() == 36
    &&& forall|i: int|
        0 <= i < 36 ==> {
            if i == 8 || i == 13 || i == 18 || i == 23 {
                #[trigger] s[i] == '-'
            } else {
                is_hex_char(s[i])
            }
        }
}

pub fn is_uuid_str(s: &str) -> (r: bool)
    ensures
        r == is_uuid_seq(s@),
{
    let len: usize = s.unicode_len();
    if len != 36 {
        return false;
    }
    let mut i: usize = 0;
    while i < 36
        invariant
            0 <= i <= 36,
            s@.len() == 36,
            forall|j: int|
                0 <= j < i ==> {
                    if j == 8 || j == 13 || j == 18 || j == 23 {
                        #[trigger] s@[j] == '-'
                    } else {
                        is_hex_char(s@[j])
                    }
                },
        decreases 36 - i,
    {
        let c = s.get_char(i);
        if i == 8 || i == 13 || i == 18 || i == 23 {
            if c != '-' {
                return false;
            }
        } else {
            let ok = (c >= '0' && c <= '9') || (c >= 'a' && c <= 'f') || (c >= 'A' && c <= 'F');
            if !ok {
                return false;
            }
        }
        i = i + 1;
    }
    true
}

/// The segments of a well-formed runtime container name.
#[derive(Debug)]
pub struct ContainerNameParts {
    pub service_name: String,
    pub pod_number: u8,
    pub container_name: String,
    pub uuid: String,
}

/// Why a runtime name failed to parse.
#[derive(Clone, Copy, PartialEq, Eq, Structural, Debug)]
pub enum NameError {
    /// The name does not have exactly four `"__"`-separated segments.
    BadShape,
    /// The second segment is not an unsigned 8-bit decimal.
    BadPodNumber,
    /// The fourth segment is not a hyphenated uuid.
    BadUuid,
}

/// The full runtime name of a container.
pub open spec fn runtime_name(
    service: Seq<char>,
    pod_number: u8,
    container: Seq<char>,
    uuid: Seq<char>,
) -> Seq<char> {
    service + sep() + dec_digits(pod_number as nat) + sep() + container + sep() + uuid
}

/// The name of a pod's private network: `"{service}__{uuid}"`.
pub open spec fn network_name_seq(service: Seq<char>, uuid: Seq<char>) -> Seq<char> {
    service + sep() + uuid
}

/// What parsing a runtime name yields: the four segments, when the name
/// splits into exactly four, the pod number is an 8-bit decimal and the
/// last segment is a hyphenated uuid.
pub open spec fn spec_parse_container_name(s: Seq<char>) -> Option<
    (Seq<char>, u8, Seq<char>, Seq<char>),
> {
    let parts = split_sep(s);
    if parts.len() == 4 && is_uuid_seq(parts[3]) {
        match parse_u8_val(parts[1]) {
            Some(v) => Some((parts[0], v, parts[2], parts[3])),
            None => None,
        }
    } else {
        None
    }
}

/// Split a runtime container name into its segments, exactly as
/// `spec_parse_container_name` describes.
pub fn parse_container_name(container_name: &str) -> (r: Result<ContainerNameParts, NameError>)
    ensures
        match r {
            Ok(p) => spec_parse_container_name(container_name@) == Some(
                (p.service_name@, p.pod_number, p.container_name@, p.uuid@),
            ),
            Err(e) => {
                &&& spec_parse_container_name(container_name@) is None
                &&& (e == NameError::BadShape <==> split_sep(container_name@).len() != 4)
                &&& (e == NameError::BadPodNumber <==> split_sep(container_name@).len() == 4
                    && parse_u8_val(split_sep(container_name@)[1]) is None)
                &&& (e == NameError::BadUuid <==> split_sep(container_name@).len() == 4
                    && parse_u8_val(split_sep(container_name@)[1]) is Some && !is_uuid_seq(
                    split_sep(container_name@)[3],
                ))
            },
        },
{
    let ranges = split_sep_ranges(container_name);
    if ranges.len() != 4 {
        return Err(NameError::BadShape);
    }
    let r0 = ranges[0];
    let r1 = ranges[1];
    let r2 = ranges[2];
    let r3 = ranges[3];
    let service = container_name.substring_char(r0.0, r0.1);
    let number = container_name.substring_char(r1.0, r1.1);
    let cname = container_name.substring_char(r2.0, r2.1);
    let uuid = container_name.substring_char(r3.0, r3.1);
    let pod_number = match parse_dec_u8(number) {
        Some(v) => v,
        None => {
            return Err(NameError::BadPodNumber);
        },
    };
    if !is_uuid_str(uuid) {
        return Err(NameError::BadUuid);
    }
    Ok(
        ContainerNameParts {
            service_name: String::from_str(service),
            pod_number,
            container_name: String::from_str(cname),
            uuid: String::from_str(uuid),
        },
    )
}

/// Parsing inverts name generation: a runtime name built from a service
/// name and a container name free of underscores, any pod number, and a
/// hyphenated uuid parses back to exactly those segments.
pub proof fn lemma_runtime_name_roundtrip(
    service: Seq<char>,
    pod_number: u8,
    container: Seq<char>,
    uuid: Seq<char>,
)
    requires
        forall|i: int| 0 <= i < service.len() ==> service[i] != '_',
        forall|i: int| 0 <= i < container.len() ==> container[i] != '_',
        is_uuid_seq(uuid),
    ensures
        spec_parse_container_name(runtime_name(service, pod_number, container, uuid)) == Some(
            (service, pod_number, container, uuid),
        ),
{
    let d = dec_digits(pod_number as nat);
    lemma_dec_digits_all_digits(pod_number as nat);
    lemma_dec_digits_val(pod_number as nat);
    assert forall|i: int| 0 <= i < d.len() implies d[i] != '_' by {
        assert(crate::text::is_digit_char(d[i]));
    }
    assert forall|i: int| 0 <= i < uuid.len() implies uuid[i] != '_' by {
        if i == 8 || i == 13 || i == 18 || i == 23 {
            assert(uuid[i] == '-');
        } else {
            assert(is_hex_char(uuid[i]));
        }
    }
    let w = runtime_name(service, pod_number, container, uuid);
    let q1 = d + sep() + container + sep() + uuid;
    let q2 = container + sep() + uuid;
    assert(w =~= service + sep() + q1);
    lemma_split_sep_concat(service, q1);
    assert(q1 =~= d + sep() + q2);
    lemma_split_sep_concat(d, q2);
    lemma_split_sep_concat(container, uuid);
    lemma_split_sep_whole(uuid);
    assert(split_sep(w) =~= seq![service, d, container, uuid]);
    assert(parse_u8_val(d) == Some(pod_number));
}

} // verus!
