//! The self-describing text encoding of a credential record.
//!
//! A record is written as its five fields in fixed order — name, issuer,
//! subject, payload, vault — each preceded by its length in decimal digits
//! and a colon. The decoder inverts the encoder exactly: decoding the
//! encoding of any well-formed record yields that record, equal in every
//! field, so the durable form round-trips losslessly.

use vstd::prelude::*;

use crate::identifier::validate;
use crate::name_gen::hex_digit_char;
use crate::name_gen::hex_digit_of;
use crate::record::CredentialRecord;
use crate::record::RecordView;
use crate::record::build;
use crate::record::record_view_wf;
use crate::source::CredentialPayload;
use crate::store::StoreError;

verus! {

/// A decimal digit character.
pub open spec fn is_dec_digit(c: char) -> bool {
    48 <= c as u32 && c as u32 <= 57  // '0' ..= '9'
}

/// The numeric value of a decimal digit character.
pub open spec fn digit_val(c: char) -> int {
    c as u32 - 48
}

/// The decimal digit characters of a non-negative number, most significant
/// first and without leading zeros.
pub open spec fn dec_chars(n: int) -> Seq<char>
    decreases n,
{
    if n < 10 {
        seq![hex_digit_char(n)]
    } else {
        dec_chars(n / 10).push(hex_digit_char(n % 10))
    }
}

/// The number a sequence of decimal digit characters denotes.
pub open spec fn dec_value(s: Seq<char>) -> int
    decreases s.len(),
{
    if s.len() == 0 {
        0
    } else {
        dec_value(s.drop_last()) * 10 + digit_val(s.last())
    }
}

/// One encoded field: its length in decimal, a colon, the field text.
pub open spec fn encode_field(f: Seq<char>) -> Seq<char> {
    dec_chars(f.len() as int) + seq![':'] + f
}

/// The encoding of a whole record: its five fields in fixed order.
pub open spec fn encode_view(r: RecordView) -> Seq<char> {
    encode_field(r.name) + encode_field(r.issuer) + encode_field(r.subject) + encode_field(
        r.payload,
    ) + encode_field(r.vault)
}

/// An encoded field starts at the position.
pub open spec fn field_at(t: Seq<char>, pos: int, f: Seq<char>) -> bool {
    &&& 0 <= pos
    &&& pos + encode_field(f).len() <= t.len()
    &&& t.subrange(pos, pos + encode_field(f).len()) == encode_field(f)
}

proof fn lemma_digit_char_val(d: int)
    requires
        0 <= d < 10,
    ensures
        is_dec_digit(hex_digit_char(d)),
        digit_val(hex_digit_char(d)) == d,
{
}

proof fn lemma_dec_chars_digits(n: int)
    requires
        n >= 0,
    ensures
        dec_chars(n).len() >= 1,
        forall|j: int| 0 <= j < dec_chars(n).len() ==> is_dec_digit(#[trigger] dec_chars(n)[j]),
    decreases n,
{
    if n < 10 {
        lemma_digit_char_val(n);
    } else {
        lemma_dec_chars_digits(n / 10);
        lemma_digit_char_val(n % 10);
        assert forall|j: int| 0 <= j < dec_chars(n).len() implies is_dec_digit(
            #[trigger] dec_chars(n)[j],
        ) by {
            if j < dec_chars(n / 10).len() {
                assert(dec_chars(n)[j] == dec_chars(n / 10)[j]);
            }
        }
    }
}

proof fn lemma_dec_value_of_chars(n: int)
    requires
        n >= 0,
    ensures
        dec_value(dec_chars(n)) == n,
    decreases n,
{
    if n < 10 {
        lemma_digit_char_val(n);
        assert(dec_chars(n).len() == 1);
        assert(dec_chars(n).drop_last() =~= Seq::<char>::empty());
        assert(dec_value(Seq::<char>::empty()) == 0);
        assert(dec_value(dec_chars(n)) == 0 * 10 + digit_val(dec_chars(n).last()));
    } else {
        lemma_dec_value_of_chars(n / 10);
        lemma_digit_char_val(n % 10);
        assert(dec_chars(n).drop_last() =~= dec_chars(n / 10));
        assert(dec_chars(n).last() == hex_digit_char(n % 10));
        assert(dec_chars(n).len() > 0);
        assert(dec_value(dec_chars(n)) == dec_value(dec_chars(n).drop_last()) * 10 + digit_val(
            dec_chars(n).last(),
        ));
        assert(n / 10 * 10 + n % 10 == n);
    }
}

proof fn lemma_dec_value_nonneg(s: Seq<char>)
    requires
        forall|j: int| 0 <= j < s.len() ==> is_dec_digit(#[trigger] s[j]),
    ensures
        dec_value(s) >= 0,
    decreases s.len(),
{
    if s.len() > 0 {
        assert(forall|j: int| 0 <= j < s.drop_last().len() ==> s.drop_last()[j] == s[j]);
        lemma_dec_value_nonneg(s.drop_last());
    }
}

proof fn lemma_dec_value_prefix(s: Seq<char>, k: int)
    requires
        0 <= k <= s.len(),
        forall|j: int| 0 <= j < s.len() ==> is_dec_digit(#[trigger] s[j]),
    ensures
        dec_value(s.subrange(0, k)) <= dec_value(s),
    decreases s.len() - k,
{
    if k == s.len() {
        assert(s.subrange(0, k) =~= s);
    } else {
        lemma_dec_value_nonneg(s.subrange(0, k));
        assert(s.subrange(0, k + 1).drop_last() =~= s.subrange(0, k));
        assert(dec_value(s.subrange(0, k + 1)) == dec_value(s.subrange(0, k)) * 10 + digit_val(
            s[k],
        ));
        lemma_dec_value_prefix(s, k + 1);
    }
}

proof fn lemma_field_at_structure(t: Seq<char>, pos: int, f: Seq<char>)
    requires
        field_at(t, pos, f),
    ensures
        ({
            let k = dec_chars(f.len() as int).len();
            &&& k >= 1
            &&& pos + k + 1 + f.len() <= t.len()
            &&& t.subrange(pos, pos + k) == dec_chars(f.len() as int)
            &&& t[pos + k] == ':'
            &&& t.subrange(pos + k + 1, pos + k + 1 + f.len() as int) == f
            &&& forall|j: int| pos <= j < pos + k ==> is_dec_digit(#[trigger] t[j])
        }),
{
    lemma_dec_chars_digits(f.len() as int);
    let enc = encode_field(f);
    let k = dec_chars(f.len() as int).len();
    assert forall|j: int| 0 <= j < enc.len() implies t[pos + j] == enc[j] by {
        assert(t.subrange(pos, pos + enc.len() as int)[j] == t[pos + j]);
    }
    assert(t.subrange(pos, pos + k as int) =~= dec_chars(f.len() as int));
    assert(enc[k as int] == ':');
    assert(t[pos + k] == enc[k as int]);
    assert forall|j: int| pos <= j < pos + k implies is_dec_digit(#[trigger] t[j]) by {
        assert(t[pos + (j - pos)] == enc[j - pos]);
        assert(enc[j - pos] == dec_chars(f.len() as int)[j - pos]);
    }
    assert forall|j: int| 0 <= j < f.len() implies t[pos + k + 1 + j] == f[j] by {
        assert(t[pos + (k + 1 + j)] == enc[k + 1 + j]);
    }
    assert(t.subrange(pos + k + 1, pos + k + 1 + f.len() as int) =~= f);
}

proof fn lemma_scan_value_bound(t: Seq<char>, pos: int, f: Seq<char>, i: int)
    requires
        field_at(t, pos, f),
        pos <= i <= pos + dec_chars(f.len() as int).len(),
    ensures
        dec_value(t.subrange(pos, i)) <= f.len(),
{
    lemma_field_at_structure(t, pos, f);
    lemma_dec_chars_digits(f.len() as int);
    let full = dec_chars(f.len() as int);
    assert(t.subrange(pos, i) =~= full.subrange(0, i - pos));
    lemma_dec_value_prefix(full, i - pos);
    lemma_dec_value_of_chars(f.len() as int);
}

proof fn lemma_next_value_bounded(t: Seq<char>, pos: int, i: int, f: Seq<char>)
    requires
        field_at(t, pos, f),
        pos <= i < t.len(),
        forall|j: int| pos <= j < i ==> is_dec_digit(#[trigger] t[j]),
        is_dec_digit(t[i]),
    ensures
        0 <= 10 * dec_value(t.subrange(pos, i)) + digit_val(t[i]) <= f.len(),
        f.len() < t.len(),
{
    lemma_field_at_structure(t, pos, f);
    let k = dec_chars(f.len() as int).len() as int;
    if i == pos + k {
        assert(t[i] == ':');
        assert(false);
    }
    if i > pos + k {
        assert(is_dec_digit(t[pos + k]));
        assert(false);
    }
    lemma_scan_value_bound(t, pos, f, i + 1);
    assert(t.subrange(pos, i + 1).drop_last() =~= t.subrange(pos, i));
    assert(t.subrange(pos, i + 1).last() == t[i]);
    lemma_dec_value_nonneg(t.subrange(pos, i + 1));
    lemma_dec_value_nonneg(t.subrange(pos, i));
}

proof fn lemma_scan_stopped_at_colon(t: Seq<char>, pos: int, i: int, f: Seq<char>)
    requires
        field_at(t, pos, f),
        pos <= i <= t.len(),
        forall|j: int| pos <= j < i ==> is_dec_digit(#[trigger] t[j]),
        i == t.len() || !is_dec_digit(t[i]),
    ensures
        ({
            let k = dec_chars(f.len() as int).len();
            &&& i == pos + k
            &&& i < t.len()
            &&& t[i] == ':'
            &&& dec_value(t.subrange(pos, i)) == f.len()
            &&& i + 1 + f.len() <= t.len()
            &&& t.subrange(i + 1, i + 1 + f.len() as int) == f
        }),
{
    lemma_field_at_structure(t, pos, f);
    let k = dec_chars(f.len() as int).len() as int;
    if i < pos + k {
        assert(is_dec_digit(t[i]));
        assert(false);
    }
    if i > pos + k {
        assert(is_dec_digit(t[pos + k]));
        assert(t[pos + k] == ':');
        assert(false);
    }
    assert(t.subrange(pos, i) == dec_chars(f.len() as int));
    lemma_dec_value_of_chars(f.len() as int);
}

proof fn lemma_encode_view_fields(t: Seq<char>, rv: RecordView)
    requires
        t == encode_view(rv),
    ensures
        ({
            let end_name = encode_field(rv.name).len() as int;
            let end_issuer = end_name + encode_field(rv.issuer).len();
            let end_subject = end_issuer + encode_field(rv.subject).len();
            let end_payload = end_subject + encode_field(rv.payload).len();
            &&& field_at(t, 0, rv.name)
            &&& field_at(t, end_name, rv.issuer)
            &&& field_at(t, end_issuer, rv.subject)
            &&& field_at(t, end_subject, rv.payload)
            &&& field_at(t, end_payload, rv.vault)
            &&& end_payload + encode_field(rv.vault).len() == t.len()
        }),
{
    let e1 = encode_field(rv.name);
    let e2 = encode_field(rv.issuer);
    let e3 = encode_field(rv.subject);
    let e4 = encode_field(rv.payload);
    let e5 = encode_field(rv.vault);
    let end_name = e1.len() as int;
    let end_issuer = end_name + e2.len();
    let end_subject = end_issuer + e3.len();
    let end_payload = end_subject + e4.len();
    assert(t.subrange(0, end_name) =~= e1);
    assert(t.subrange(end_name, end_issuer) =~= e2);
    assert(t.subrange(end_issuer, end_subject) =~= e3);
    assert(t.subrange(end_subject, end_payload) =~= e4);
    assert(t.subrange(end_payload, end_payload + e5.len()) =~= e5);
}

fn malformed() -> (e: StoreError)
    ensures
        e is Io,
{
    StoreError::Io("the record text is not a well-formed encoding".to_owned())
}

fn push_dec(out: &mut String, n: usize)
    ensures
        final(out)@ == old(out)@ + dec_chars(n as int),
    decreases n,
{
    if n >= 10 {
        push_dec(out, n / 10);
    }
    let d = (n % 10) as u64;
    let digit = hex_digit_of(d);
    proof {
        assert(digit@ =~= seq![hex_digit_char(d as int)]);
    }
    out.append(digit);
    proof {
        if n >= 10 {
            assert(old(out)@ + dec_chars(n as int) =~= (old(out)@ + dec_chars(n as int / 10)) + digit@);
        } else {
            assert(old(out)@ + dec_chars(n as int) =~= old(out)@ + digit@);
        }
    }
}

fn append_field(out: &mut String, f: &str)
    ensures
        final(out)@ == old(out)@ + encode_field(f@),
{
    let n = f.unicode_len();
    push_dec(out, n);
    out.append(":");
    out.append(f);
    proof {
        reveal_strlit(":");
        assert(":"@ =~= seq![':']);
        assert(old(out)@ + encode_field(f@) =~= ((old(out)@ + dec_chars(f@.len() as int))
            + seq![':']) + f@);
    }
}

/// Encodes a record as self-describing text: every field, in fixed order,
/// preceded by its decimal length and a colon.
pub fn encode(record: &CredentialRecord) -> (out: String)
    ensures
        out@ == encode_view(record@),
{
    let mut out = String::new();
    append_field(&mut out, record.name());
    append_field(&mut out, record.issuer().as_text());
    append_field(&mut out, record.subject().as_text());
    append_field(&mut out, record.payload().as_text());
    append_field(&mut out, record.vault());
    proof {
        assert(out@ =~= encode_view(record@));
    }
    out
}

fn parse_field(text: &str, pos: usize) -> (r: Result<(String, usize), StoreError>)
    requires
        pos <= text@.len(),
    ensures
        forall|f: Seq<char>|
            field_at(text@, pos as int, f) ==> (r matches Ok(p) && p.0@ == f && p.1 == pos
                + encode_field(f).len()),
        r matches Ok(p) ==> pos < p.1 <= text@.len(),
        r matches Err(e) ==> e is Io,
{
    let len = text.unicode_len();
    let mut i: usize = pos;
    let mut value: usize = 0;
    while i < len && text.get_char(i) as u32 >= 48 && text.get_char(i) as u32 <= 57
        invariant
            len == text@.len(),
            pos <= i <= len,
            value <= len,
            forall|j: int| pos <= j < i ==> is_dec_digit(#[trigger] text@[j]),
            value == dec_value(text@.subrange(pos as int, i as int)),
        decreases len - i,
    {
        let d = (text.get_char(i) as u32 - 48) as usize;
        let stepped = match value.checked_mul(10) {
            Some(v10) => v10.checked_add(d),
            None => None,
        };
        let next_value = match stepped {
            Some(v) => v,
            None => {
                proof {
                    assert forall|f: Seq<char>| !field_at(text@, pos as int, f) by {
                        if field_at(text@, pos as int, f) {
                            lemma_next_value_bounded(text@, pos as int, i as int, f);
                        }
                    }
                }
                return Err(malformed());
            },
        };
        if next_value > len {
            proof {
                assert forall|f: Seq<char>| !field_at(text@, pos as int, f) by {
                    if field_at(text@, pos as int, f) {
                        lemma_next_value_bounded(text@, pos as int, i as int, f);
                    }
                }
            }
            return Err(malformed());
        }
        proof {
            assert(text@.subrange(pos as int, i as int + 1).drop_last() =~= text@.subrange(
                pos as int,
                i as int,
            ));
            assert(text@.subrange(pos as int, i as int + 1).last() == text@[i as int]);
        }
        value = next_value;
        i += 1;
    }
    if i >= len {
        proof {
            assert forall|f: Seq<char>| !field_at(text@, pos as int, f) by {
                if field_at(text@, pos as int, f) {
                    lemma_scan_stopped_at_colon(text@, pos as int, i as int, f);
                }
            }
        }
        return Err(malformed());
    }
    if text.get_char(i) != ':' {
        proof {
            assert forall|f: Seq<char>| !field_at(text@, pos as int, f) by {
                if field_at(text@, pos as int, f) {
                    lemma_scan_stopped_at_colon(text@, pos as int, i as int, f);
                }
            }
        }
        return Err(malformed());
    }
    let content_start = i + 1;
    if value > len - content_start {
        proof {
            assert forall|f: Seq<char>| !field_at(text@, pos as int, f) by {
                if field_at(text@, pos as int, f) {
                    lemma_scan_stopped_at_colon(text@, pos as int, i as int, f);
                }
            }
        }
        return Err(malformed());
    }
    let content = text.substring_char(content_start, content_start + value);
    proof {
        assert forall|f: Seq<char>| field_at(text@, pos as int, f) implies (content@ == f
            && content_start + value == pos + encode_field(f).len()) by {
            lemma_scan_stopped_at_colon(text@, pos as int, i as int, f);
        }
    }
    Ok((content.to_owned(), content_start + value))
}

/// Decodes self-describing record text. Decoding the encoding of any
/// well-formed record yields that record, equal in every field; text that
/// is not such an encoding of a well-formed record fails with
/// [`StoreError::Io`].
pub fn decode(text: &str) -> (r: Result<CredentialRecord, StoreError>)
    ensures
        forall|rv: RecordView|
            record_view_wf(rv) && text@ == encode_view(rv) ==> (r matches Ok(rec) && rec@ == rv),
        r matches Ok(rec) ==> rec.wf(),
        r matches Err(e) ==> e is Io,
{
    let len = text.unicode_len();
    let name_r = parse_field(text, 0);
    let (name_s, pos1) = match name_r {
        Ok(p) => p,
        Err(e) => {
            proof {
                assert forall|rv: RecordView| !(record_view_wf(rv) && text@ == encode_view(rv)) by {
                    if record_view_wf(rv) && text@ == encode_view(rv) {
                        lemma_encode_view_fields(text@, rv);
                    }
                }
            }
            return Err(e);
        },
    };
    proof {
        assert forall|rv: RecordView|
            record_view_wf(rv) && text@ == encode_view(rv) implies name_s@ == rv.name && pos1
            == encode_field(rv.name).len() by {
            lemma_encode_view_fields(text@, rv);
        }
    }
    let issuer_r = parse_field(text, pos1);
    let (issuer_s, pos2) = match issuer_r {
        Ok(p) => p,
        Err(e) => {
            proof {
                assert forall|rv: RecordView| !(record_view_wf(rv) && text@ == encode_view(rv)) by {
                    if record_view_wf(rv) && text@ == encode_view(rv) {
                        lemma_encode_view_fields(text@, rv);
                    }
                }
            }
            return Err(e);
        },
    };
    proof {
        assert forall|rv: RecordView|
            record_view_wf(rv) && text@ == encode_view(rv) implies issuer_s@ == rv.issuer && pos2
            == pos1 + encode_field(rv.issuer).len() by {
            lemma_encode_view_fields(text@, rv);
        }
    }
    let subject_r = parse_field(text, pos2);
    let (subject_s, pos3) = match subject_r {
        Ok(p) => p,
        Err(e) => {
            proof {
                assert forall|rv: RecordView| !(record_view_wf(rv) && text@ == encode_view(rv)) by {
                    if record_view_wf(rv) && text@ == encode_view(rv) {
                        lemma_encode_view_fields(text@, rv);
                    }
                }
            }
            return Err(e);
        },
    };
    proof {
        assert forall|rv: RecordView|
            record_view_wf(rv) && text@ == encode_view(rv) implies subject_s@ == rv.subject && pos3
            == pos2 + encode_field(rv.subject).len() by {
            lemma_encode_view_fields(text@, rv);
        }
    }
    let payload_r = parse_field(text, pos3);
    let (payload_s, pos4) = match payload_r {
        Ok(p) => p,
        Err(e) => {
            proof {
                assert forall|rv: RecordView| !(record_view_wf(rv) && text@ == encode_view(rv)) by {
                    if record_view_wf(rv) && text@ == encode_view(rv) {
                        lemma_encode_view_fields(text@, rv);
                    }
                }
            }
            return Err(e);
        },
    };
    proof {
        assert forall|rv: RecordView|
            record_view_wf(rv) && text@ == encode_view(rv) implies payload_s@ == rv.payload && pos4
            == pos3 + encode_field(rv.payload).len() by {
            lemma_encode_view_fields(text@, rv);
        }
    }
    let vault_r = parse_field(text, pos4);
    let (vault_s, pos5) = match vault_r {
        Ok(p) => p,
        Err(e) => {
            proof {
                assert forall|rv: RecordView| !(record_view_wf(rv) && text@ == encode_view(rv)) by {
                    if record_view_wf(rv) && text@ == encode_view(rv) {
                        lemma_encode_view_fields(text@, rv);
                    }
                }
            }
            return Err(e);
        },
    };
    proof {
        assert forall|rv: RecordView|
            record_view_wf(rv) && text@ == encode_view(rv) implies vault_s@ == rv.vault && pos5
            == text@.len() by {
            lemma_encode_view_fields(text@, rv);
        }
    }
    if pos5 != len {
        return Err(malformed());
    }
    if name_s.as_str().is_empty() {
        return Err(malformed());
    }
    let issuer_id = match validate(issuer_s.as_str()) {
        Ok(id) => id,
        Err(_) => {
            return Err(malformed());
        },
    };
    let subject_id = match validate(subject_s.as_str()) {
        Ok(id) => id,
        Err(_) => {
            return Err(malformed());
        },
    };
    let record = build(
        name_s,
        issuer_id,
        subject_id,
        CredentialPayload::from_text(payload_s),
        vault_s,
    );
    proof {
        assert forall|rv: RecordView|
            record_view_wf(rv) && text@ == encode_view(rv) implies record@ == rv by {
            lemma_encode_view_fields(text@, rv);
        }
    }
    Ok(record)
}

} // verus!
