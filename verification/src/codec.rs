//! Line-oriented persistence of metadata records: a tagged, lossless,
//! single-line JSON text encoding and its strict decoder, with a proved
//! round-trip law.

use vstd::prelude::*;

use crate::metadata::EpochEndingBackupMeta;
use crate::metadata::EpochEndingBackupMetaRange;
use crate::metadata::EpochEndingBackupMetaRangeView;
use crate::metadata::EpochEndingBackupMetaView;
use crate::metadata::IdentityMeta;
use crate::metadata::Metadata;
use crate::metadata::MetadataView;
use crate::metadata::StateSnapshotBackupMeta;
use crate::metadata::StateSnapshotBackupMetaRange;
use crate::metadata::StateSnapshotBackupMetaRangeView;
use crate::metadata::StateSnapshotBackupMetaView;
use crate::metadata::TransactionBackupMeta;
use crate::metadata::TransactionBackupMetaRange;
use crate::metadata::TransactionBackupMetaRangeView;
use crate::metadata::TransactionBackupMetaView;
use crate::naming::dec_of;
use crate::storage::TextLine;
use crate::storage::single_line;

verus! {

// ------------------------------------------------------------------
// Character-level building blocks.
// ------------------------------------------------------------------

/// True when `c` is a lowercase hexadecimal digit character.
pub open spec fn is_hex_digit_char(c: char) -> bool {
    ('0' <= c && c <= '9') || ('a' <= c && c <= 'f')
}

/// The lowercase hexadecimal digit character for `d`.
pub open spec fn hex_digit(d: nat) -> char
    recommends
        d <= 15,
{
    if d == 0 {
        '0'
    } else if d == 1 {
        '1'
    } else if d == 2 {
        '2'
    } else if d == 3 {
        '3'
    } else if d == 4 {
        '4'
    } else if d == 5 {
        '5'
    } else if d == 6 {
        '6'
    } else if d == 7 {
        '7'
    } else if d == 8 {
        '8'
    } else if d == 9 {
        '9'
    } else if d == 10 {
        'a'
    } else if d == 11 {
        'b'
    } else if d == 12 {
        'c'
    } else if d == 13 {
        'd'
    } else if d == 14 {
        'e'
    } else {
        'f'
    }
}

/// The numeric value of a lowercase hexadecimal digit character.
pub open spec fn hex_digit_val(c: char) -> nat
    recommends
        is_hex_digit_char(c),
{
    if '0' <= c && c <= '9' {
        (c as int - '0' as int) as nat
    } else {
        (c as int - 'a' as int + 10) as nat
    }
}

/// Reading back the hexadecimal digit character of `d` gives `d`, and the
/// character is a hexadecimal digit.
pub proof fn lemma_hex_digit_val(d: nat)
    requires
        d <= 15,
    ensures
        hex_digit_val(hex_digit(d)) == d,
        is_hex_digit_char(hex_digit(d)),
{
}

/// The escaped form of one character inside a quoted string: quotes and
/// backslashes get a backslash escape, control characters a four-digit
/// `\u00..` escape, everything else stands for itself.
pub open spec fn esc_char(c: char) -> Seq<char> {
    if c == '"' {
        seq!['\\', '"']
    } else if c == '\\' {
        seq!['\\', '\\']
    } else if (c as u32) < 32 {
        seq!['\\', 'u', '0', '0', hex_digit(((c as u32) / 16) as nat), hex_digit(
            ((c as u32) % 16) as nat,
        )]
    } else {
        seq![c]
    }
}

/// The escaped form of a whole string.
pub open spec fn esc(s: Seq<char>) -> Seq<char>
    decreases s.len(),
{
    if s.len() == 0 {
        Seq::<char>::empty()
    } else {
        esc_char(s[0]) + esc(s.drop_first())
    }
}

/// Escaping distributes over concatenation.
pub proof fn lemma_esc_append(a: Seq<char>, b: Seq<char>)
    ensures
        esc(a + b) == esc(a) + esc(b),
    decreases a.len(),
{
    if a.len() == 0 {
        assert(a + b =~= b);
        assert(esc(a) + esc(b) =~= esc(b));
    } else {
        lemma_esc_append(a.drop_first(), b);
        assert((a + b).drop_first() =~= a.drop_first() + b);
        assert(esc(a + b) =~= esc(a) + esc(b));
    }
}

/// The lowercase hexadecimal rendering of a byte string, two digits per
/// byte, high digit first.
pub open spec fn hex_of(bytes: Seq<u8>) -> Seq<char> {
    Seq::new(
        2 * bytes.len(),
        |i: int|
            if i % 2 == 0 {
                hex_digit((bytes[i / 2] / 16) as nat)
            } else {
                hex_digit((bytes[i / 2] % 16) as nat)
            },
    )
}

// ------------------------------------------------------------------
// The encoding templates.
// ------------------------------------------------------------------

/// The encoded object of one epoch-ending leaf record.
pub open spec fn enc_epoch_leaf(e: EpochEndingBackupMetaView) -> Seq<char> {
    "{\"first_epoch\":"@ + (dec_of(e.first_epoch as nat) + (",\"last_epoch\":"@ + (dec_of(
        e.last_epoch as nat,
    ) + (",\"first_version\":"@ + (dec_of(e.first_version as nat) + (",\"last_version\":"@
        + (dec_of(e.last_version as nat) + (",\"manifest\":\""@ + (esc(e.manifest)
        + "\"}"@)))))))))
}

/// The encoded object of one snapshot leaf record.
pub open spec fn enc_snapshot_leaf(e: StateSnapshotBackupMetaView) -> Seq<char> {
    "{\"epoch\":"@ + (dec_of(e.epoch as nat) + (",\"version\":"@ + (dec_of(e.version as nat)
        + (",\"manifest\":\""@ + (esc(e.manifest) + "\"}"@)))))
}

/// The encoded object of one transaction leaf record.
pub open spec fn enc_transaction_leaf(e: TransactionBackupMetaView) -> Seq<char> {
    "{\"first_version\":"@ + (dec_of(e.first_version as nat) + (",\"last_version\":"@ + (dec_of(
        e.last_version as nat,
    ) + (",\"manifest\":\""@ + (esc(e.manifest) + "\"}"@)))))
}

/// A comma-joined encoded list of epoch-ending leaf objects.
pub open spec fn enc_epoch_list(v: Seq<EpochEndingBackupMetaView>) -> Seq<char>
    decreases v.len(),
{
    if v.len() == 0 {
        Seq::<char>::empty()
    } else if v.len() == 1 {
        enc_epoch_leaf(v[0])
    } else {
        enc_epoch_leaf(v[0]) + (","@ + enc_epoch_list(v.drop_first()))
    }
}

/// A comma-joined encoded list of snapshot leaf objects.
pub open spec fn enc_snapshot_list(v: Seq<StateSnapshotBackupMetaView>) -> Seq<char>
    decreases v.len(),
{
    if v.len() == 0 {
        Seq::<char>::empty()
    } else if v.len() == 1 {
        enc_snapshot_leaf(v[0])
    } else {
        enc_snapshot_leaf(v[0]) + (","@ + enc_snapshot_list(v.drop_first()))
    }
}

/// A comma-joined encoded list of transaction leaf objects.
pub open spec fn enc_transaction_list(v: Seq<TransactionBackupMetaView>) -> Seq<char>
    decreases v.len(),
{
    if v.len() == 0 {
        Seq::<char>::empty()
    } else if v.len() == 1 {
        enc_transaction_leaf(v[0])
    } else {
        enc_transaction_leaf(v[0]) + (","@ + enc_transaction_list(v.drop_first()))
    }
}


/// The encoded body object of an epoch-ending range record.
pub open spec fn enc_epoch_range_obj(r: EpochEndingBackupMetaRangeView) -> Seq<char> {
    "{\"first_epoch\":"@ + (dec_of(r.first_epoch as nat) + (",\"last_epoch\":"@ + (dec_of(
        r.last_epoch as nat,
    ) + (",\"first_version\":"@ + (dec_of(r.first_version as nat) + (",\"last_version\":"@
        + (dec_of(r.last_version as nat) + (",\"backup_metas\":["@ + (enc_epoch_list(
        r.backup_metas,
    ) + "]}}"@)))))))))
}

/// The encoded body object of a snapshot range record.
pub open spec fn enc_snapshot_range_obj(r: StateSnapshotBackupMetaRangeView) -> Seq<char> {
    "{\"first_epoch\":"@ + (dec_of(r.first_epoch as nat) + (",\"last_epoch\":"@ + (dec_of(
        r.last_epoch as nat,
    ) + (",\"first_version\":"@ + (dec_of(r.first_version as nat) + (",\"last_version\":"@
        + (dec_of(r.last_version as nat) + (",\"backup_metas\":["@ + (enc_snapshot_list(
        r.backup_metas,
    ) + "]}}"@)))))))))
}

/// The encoded body object of a transaction range record.
pub open spec fn enc_transaction_range_obj(r: TransactionBackupMetaRangeView) -> Seq<char> {
    "{\"first_version\":"@ + (dec_of(r.first_version as nat) + (",\"last_version\":"@ + (dec_of(
        r.last_version as nat,
    ) + (",\"backup_metas\":["@ + (enc_transaction_list(r.backup_metas) + "]}}"@)))))
}

/// The single-line encoding of a record: an externally tagged object whose
/// tag names the kind and whose body carries every field, numbers in
/// decimal, the manifest handle as an escaped quoted string, the identity's
/// 256-bit id in lowercase hexadecimal.
pub open spec fn spec_encode(m: MetadataView) -> Seq<char> {
    match m {
        MetadataView::EpochEndingBackup(e) => "{\"EpochEndingBackup\":"@ + (enc_epoch_leaf(e)
            + "}"@),
        MetadataView::EpochEndingBackupRange(r) => "{\"EpochEndingBackupRange\":"@
            + enc_epoch_range_obj(r),
        MetadataView::StateSnapshotBackup(e) => "{\"StateSnapshotBackup\":"@ + (
        enc_snapshot_leaf(e) + "}"@),
        MetadataView::StateSnapshotBackupRange(r) => "{\"StateSnapshotBackupRange\":"@
            + enc_snapshot_range_obj(r),
        MetadataView::TransactionBackup(e) => "{\"TransactionBackup\":"@ + (
        enc_transaction_leaf(e) + "}"@),
        MetadataView::TransactionBackupRange(r) => "{\"TransactionBackupRange\":"@
            + enc_transaction_range_obj(r),
        MetadataView::Identity(i) => "{\"Identity\":{\"id\":\""@ + (hex_of(i.id) + "\"}}"@),
    }
}

// ------------------------------------------------------------------
// Executable encoding.
// ------------------------------------------------------------------

/// Relies on `char::to_string` (through `ToString`): the returned string is
/// exactly that one character.
#[verifier::external_body]
pub(crate) fn char_to_string(c: char) -> (r: String)
    ensures
        r@ == seq![c],
{
    c.to_string()
}

/// The lowercase hexadecimal digit as a one-character string.
fn hex_digit_str(d: u8) -> (r: &'static str)
    requires
        d <= 15,
    ensures
        r@ == seq![hex_digit(d as nat)],
{
    proof {
        reveal_strlit("0");
        reveal_strlit("1");
        reveal_strlit("2");
        reveal_strlit("3");
        reveal_strlit("4");
        reveal_strlit("5");
        reveal_strlit("6");
        reveal_strlit("7");
        reveal_strlit("8");
        reveal_strlit("9");
        reveal_strlit("a");
        reveal_strlit("b");
        reveal_strlit("c");
        reveal_strlit("d");
        reveal_strlit("e");
        reveal_strlit("f");
    }
    let r = if d == 0 {
        "0"
    } else if d == 1 {
        "1"
    } else if d == 2 {
        "2"
    } else if d == 3 {
        "3"
    } else if d == 4 {
        "4"
    } else if d == 5 {
        "5"
    } else if d == 6 {
        "6"
    } else if d == 7 {
        "7"
    } else if d == 8 {
        "8"
    } else if d == 9 {
        "9"
    } else if d == 10 {
        "a"
    } else if d == 11 {
        "b"
    } else if d == 12 {
        "c"
    } else if d == 13 {
        "d"
    } else if d == 14 {
        "e"
    } else {
        "f"
    };
    proof {
        assert(r@ =~= seq![hex_digit(d as nat)]);
    }
    r
}

/// Appends the escaped form of `s` to `out`.
fn append_escaped(out: &mut String, s: &str)
    ensures
        final(out)@ == old(out)@ + esc(s@),
{
    let n = s.unicode_len();
    let mut i: usize = 0;
    while i < n
        invariant
            n == s@.len(),
            i <= n,
            out@ == old(out)@ + esc(s@.subrange(0, i as int)),
        decreases n - i,
    {
        let c = s.get_char(i);
        if c == '"' {
            out.append("\\\"");
            proof {
                reveal_strlit("\\\"");
                assert("\\\""@ =~= esc_char(c));
            }
        } else if c == '\\' {
            out.append("\\\\");
            proof {
                reveal_strlit("\\\\");
                assert("\\\\"@ =~= esc_char(c));
            }
        } else if (c as u32) < 32 {
            let code = c as u32;
            out.append("\\u00");
            out.append(hex_digit_str((code / 16) as u8));
            out.append(hex_digit_str((code % 16) as u8));
            proof {
                reveal_strlit("\\u00");
                assert("\\u00"@ + seq![hex_digit(((c as u32) / 16) as nat)] + seq![hex_digit(
                    ((c as u32) % 16) as nat,
                )] =~= esc_char(c));
            }
        } else {
            let cs = char_to_string(c);
            out.append(cs.as_str());
            proof {
                assert(seq![c] =~= esc_char(c));
            }
        }
        proof {
            lemma_esc_append(s@.subrange(0, i as int), seq![s@[i as int]]);
            assert(s@.subrange(0, i as int) + seq![s@[i as int]] =~= s@.subrange(0, i + 1));
            assert(seq![s@[i as int]].drop_first() =~= Seq::<char>::empty());
            assert(esc(seq![s@[i as int]]) == esc_char(s@[i as int]) + esc(Seq::<char>::empty()));
            assert(esc_char(s@[i as int]) + esc(Seq::<char>::empty()) =~= esc_char(s@[i as int]));
            assert(out@ =~= old(out)@ + esc(s@.subrange(0, i + 1)));
        }
        i += 1;
    }
    proof {
        assert(s@.subrange(0, n as int) =~= s@);
    }
}

/// Appends the decimal rendering of `n` to `out`.
fn append_u64(out: &mut String, n: u64)
    ensures
        final(out)@ == old(out)@ + dec_of(n as nat),
{
    let s = crate::naming::u64_to_string(n);
    out.append(s.as_str());
}

/// Appends the hexadecimal rendering of `bytes` to `out`.
fn append_hex(out: &mut String, bytes: &Vec<u8>)
    ensures
        final(out)@ == old(out)@ + hex_of(bytes@),
{
    let n = bytes.len();
    let mut i: usize = 0;
    while i < n
        invariant
            n == bytes@.len(),
            i <= n,
            out@ == old(out)@ + hex_of(bytes@.subrange(0, i as int)),
        decreases n - i,
    {
        let b = bytes[i];
        out.append(hex_digit_str(b / 16));
        out.append(hex_digit_str(b % 16));
        proof {
            assert(hex_of(bytes@.subrange(0, i as int)) + seq![hex_digit(
                (bytes@[i as int] / 16) as nat,
            )] + seq![hex_digit((bytes@[i as int] % 16) as nat)] =~= hex_of(
                bytes@.subrange(0, i + 1),
            ));
            assert(out@ =~= old(out)@ + hex_of(bytes@.subrange(0, i + 1)));
        }
        i += 1;
    }
    proof {
        assert(bytes@.subrange(0, n as int) =~= bytes@);
    }
}

/// Appends the encoded object of one epoch-ending leaf to `out`.
fn append_epoch_leaf(out: &mut String, e: &EpochEndingBackupMeta)
    ensures
        final(out)@ == old(out)@ + enc_epoch_leaf(e@),
{
    out.append("{\"first_epoch\":");
    append_u64(out, e.first_epoch);
    out.append(",\"last_epoch\":");
    append_u64(out, e.last_epoch);
    out.append(",\"first_version\":");
    append_u64(out, e.first_version);
    out.append(",\"last_version\":");
    append_u64(out, e.last_version);
    out.append(",\"manifest\":\"");
    append_escaped(out, e.manifest.as_str());
    out.append("\"}");
    proof {
        assert(out@ =~= old(out)@ + enc_epoch_leaf(e@));
    }
}

/// Appends the encoded object of one snapshot leaf to `out`.
fn append_snapshot_leaf(out: &mut String, e: &StateSnapshotBackupMeta)
    ensures
        final(out)@ == old(out)@ + enc_snapshot_leaf(e@),
{
    out.append("{\"epoch\":");
    append_u64(out, e.epoch);
    out.append(",\"version\":");
    append_u64(out, e.version);
    out.append(",\"manifest\":\"");
    append_escaped(out, e.manifest.as_str());
    out.append("\"}");
    proof {
        assert(out@ =~= old(out)@ + enc_snapshot_leaf(e@));
    }
}

/// Appends the encoded object of one transaction leaf to `out`.
fn append_transaction_leaf(out: &mut String, e: &TransactionBackupMeta)
    ensures
        final(out)@ == old(out)@ + enc_transaction_leaf(e@),
{
    out.append("{\"first_version\":");
    append_u64(out, e.first_version);
    out.append(",\"last_version\":");
    append_u64(out, e.last_version);
    out.append(",\"manifest\":\"");
    append_escaped(out, e.manifest.as_str());
    out.append("\"}");
    proof {
        assert(out@ =~= old(out)@ + enc_transaction_leaf(e@));
    }
}

/// Splitting a non-empty list after its first element.
proof fn lemma_enc_epoch_list_snoc(v: Seq<EpochEndingBackupMetaView>)
    requires
        v.len() >= 2,
    ensures
        enc_epoch_list(v) == enc_epoch_list(v.drop_last()) + ","@ + enc_epoch_leaf(v.last()),
    decreases v.len(),
{
    if v.len() == 2 {
        assert(v.drop_first() =~= seq![v[1]]);
        assert(v.drop_last() =~= seq![v[0]]);
        assert(v.last() == v[1]);
        assert(enc_epoch_list(seq![v[1]]) == enc_epoch_leaf(v[1]));
        assert(enc_epoch_list(seq![v[0]]) == enc_epoch_leaf(v[0]));
        assert(v.last() == v[1]);
        assert(enc_epoch_list(v) =~= enc_epoch_list(v.drop_last()) + ","@ + enc_epoch_leaf(
            v.last(),
        ));
    } else {
        lemma_enc_epoch_list_snoc(v.drop_first());
        assert(v.drop_first().drop_last() =~= v.drop_last().drop_first());
        assert(v.drop_first().last() == v.last());
        assert(v.drop_last().len() >= 2);
        assert(enc_epoch_list(v.drop_last()) == enc_epoch_leaf(v.drop_last()[0]) + ","@ + enc_epoch_list(
            v.drop_last().drop_first(),
        ));
        assert(v.drop_last()[0] == v[0]);
        assert(enc_epoch_list(v) =~= enc_epoch_list(v.drop_last()) + ","@ + enc_epoch_leaf(
            v.last(),
        ));
    }
}

proof fn lemma_enc_snapshot_list_snoc(v: Seq<StateSnapshotBackupMetaView>)
    requires
        v.len() >= 2,
    ensures
        enc_snapshot_list(v) == enc_snapshot_list(v.drop_last()) + ","@ + enc_snapshot_leaf(
            v.last(),
        ),
    decreases v.len(),
{
    if v.len() == 2 {
        assert(v.drop_first() =~= seq![v[1]]);
        assert(v.drop_last() =~= seq![v[0]]);
        assert(v.last() == v[1]);
        assert(enc_snapshot_list(seq![v[1]]) == enc_snapshot_leaf(v[1]));
        assert(enc_snapshot_list(seq![v[0]]) == enc_snapshot_leaf(v[0]));
        assert(v.last() == v[1]);
        assert(enc_snapshot_list(v) =~= enc_snapshot_list(v.drop_last()) + ","@
            + enc_snapshot_leaf(v.last()));
    } else {
        lemma_enc_snapshot_list_snoc(v.drop_first());
        assert(v.drop_first().drop_last() =~= v.drop_last().drop_first());
        assert(v.drop_first().last() == v.last());
        assert(v.drop_last().len() >= 2);
        assert(enc_snapshot_list(v.drop_last()) == enc_snapshot_leaf(v.drop_last()[0]) + ","@ + enc_snapshot_list(
            v.drop_last().drop_first(),
        ));
        assert(v.drop_last()[0] == v[0]);
        assert(enc_snapshot_list(v) =~= enc_snapshot_list(v.drop_last()) + ","@
            + enc_snapshot_leaf(v.last()));
    }
}

proof fn lemma_enc_transaction_list_snoc(v: Seq<TransactionBackupMetaView>)
    requires
        v.len() >= 2,
    ensures
        enc_transaction_list(v) == enc_transaction_list(v.drop_last()) + ","@
            + enc_transaction_leaf(v.last()),
    decreases v.len(),
{
    if v.len() == 2 {
        assert(v.drop_first() =~= seq![v[1]]);
        assert(v.drop_last() =~= seq![v[0]]);
        assert(enc_transaction_list(seq![v[1]]) == enc_transaction_leaf(v[1]));
        assert(enc_transaction_list(seq![v[0]]) == enc_transaction_leaf(v[0]));
        assert(v.last() == v[1]);
        assert(enc_transaction_list(v) =~= enc_transaction_list(v.drop_last()) + ","@
            + enc_transaction_leaf(v.last()));
    } else {
        lemma_enc_transaction_list_snoc(v.drop_first());
        assert(v.drop_first().drop_last() =~= v.drop_last().drop_first());
        assert(v.drop_first().last() == v.last());
        assert(v.drop_last().len() >= 2);
        assert(enc_transaction_list(v.drop_last()) == enc_transaction_leaf(v.drop_last()[0]) + ","@ + enc_transaction_list(
            v.drop_last().drop_first(),
        ));
        assert(v.drop_last()[0] == v[0]);
        assert(enc_transaction_list(v) =~= enc_transaction_list(v.drop_last()) + ","@
            + enc_transaction_leaf(v.last()));
    }
}

/// Appends the comma-joined encoded epoch-ending leaf list to `out`.
fn append_epoch_list(out: &mut String, v: &Vec<EpochEndingBackupMeta>)
    ensures
        final(out)@ == old(out)@ + enc_epoch_list(v.deep_view()),
{
    let n = v.len();
    let mut i: usize = 0;
    while i < n
        invariant
            n == v@.len(),
            i <= n,
            out@ == old(out)@ + enc_epoch_list(v.deep_view().subrange(0, i as int)),
        decreases n - i,
    {
        if i > 0 {
            out.append(",");
        }
        append_epoch_leaf(out, &v[i]);
        proof {
            let w = v.deep_view().subrange(0, i + 1);
            assert(w.drop_last() =~= v.deep_view().subrange(0, i as int));
            assert(w.last() == v.deep_view()[i as int]);
            if i == 0 {
                assert(w =~= seq![v.deep_view()[0]]);
                assert(enc_epoch_list(w) == enc_epoch_leaf(v.deep_view()[0]));
            } else {
                lemma_enc_epoch_list_snoc(w);
            }
            assert(out@ =~= old(out)@ + enc_epoch_list(w));
        }
        i += 1;
    }
    proof {
        assert(v.deep_view().subrange(0, n as int) =~= v.deep_view());
    }
}

/// Appends the comma-joined encoded snapshot leaf list to `out`.
fn append_snapshot_list(out: &mut String, v: &Vec<StateSnapshotBackupMeta>)
    ensures
        final(out)@ == old(out)@ + enc_snapshot_list(v.deep_view()),
{
    let n = v.len();
    let mut i: usize = 0;
    while i < n
        invariant
            n == v@.len(),
            i <= n,
            out@ == old(out)@ + enc_snapshot_list(v.deep_view().subrange(0, i as int)),
        decreases n - i,
    {
        if i > 0 {
            out.append(",");
        }
        append_snapshot_leaf(out, &v[i]);
        proof {
            let w = v.deep_view().subrange(0, i + 1);
            assert(w.drop_last() =~= v.deep_view().subrange(0, i as int));
            assert(w.last() == v.deep_view()[i as int]);
            if i == 0 {
                assert(w =~= seq![v.deep_view()[0]]);
                assert(enc_snapshot_list(w) == enc_snapshot_leaf(v.deep_view()[0]));
            } else {
                lemma_enc_snapshot_list_snoc(w);
            }
            assert(out@ =~= old(out)@ + enc_snapshot_list(w));
        }
        i += 1;
    }
    proof {
        assert(v.deep_view().subrange(0, n as int) =~= v.deep_view());
    }
}

/// Appends the comma-joined encoded transaction leaf list to `out`.
fn append_transaction_list(out: &mut String, v: &Vec<TransactionBackupMeta>)
    ensures
        final(out)@ == old(out)@ + enc_transaction_list(v.deep_view()),
{
    let n = v.len();
    let mut i: usize = 0;
    while i < n
        invariant
            n == v@.len(),
            i <= n,
            out@ == old(out)@ + enc_transaction_list(v.deep_view().subrange(0, i as int)),
        decreases n - i,
    {
        if i > 0 {
            out.append(",");
        }
        append_transaction_leaf(out, &v[i]);
        proof {
            let w = v.deep_view().subrange(0, i + 1);
            assert(w.drop_last() =~= v.deep_view().subrange(0, i as int));
            assert(w.last() == v.deep_view()[i as int]);
            if i == 0 {
                assert(w =~= seq![v.deep_view()[0]]);
                assert(enc_transaction_list(w) == enc_transaction_leaf(v.deep_view()[0]));
            } else {
                lemma_enc_transaction_list_snoc(w);
            }
            assert(out@ =~= old(out)@ + enc_transaction_list(w));
        }
        i += 1;
    }
    proof {
        assert(v.deep_view().subrange(0, n as int) =~= v.deep_view());
    }
}

fn encode_epoch_leaf_line(e: &EpochEndingBackupMeta) -> (r: String)
    ensures
        r@ == spec_encode(MetadataView::EpochEndingBackup(e@)),
{
    let mut out = String::new();
    out.append("{\"EpochEndingBackup\":");
    append_epoch_leaf(&mut out, e);
    out.append("}");
    proof {
        assert(out@ =~= spec_encode(MetadataView::EpochEndingBackup(e@)));
    }
    out
}

#[verifier::rlimit(100)]
#[verifier::spinoff_prover]
fn encode_epoch_range_line(r: &EpochEndingBackupMetaRange) -> (res: String)
    ensures
        res@ == spec_encode(MetadataView::EpochEndingBackupRange(r@)),
{
    let mut out = String::new();
    out.append("{\"EpochEndingBackupRange\":");
    out.append("{\"first_epoch\":");
    append_u64(&mut out, r.first_epoch);
    out.append(",\"last_epoch\":");
    append_u64(&mut out, r.last_epoch);
    out.append(",\"first_version\":");
    append_u64(&mut out, r.first_version);
    out.append(",\"last_version\":");
    append_u64(&mut out, r.last_version);
    out.append(",\"backup_metas\":[");
    append_epoch_list(&mut out, &r.backup_metas);
    out.append("]}}");
    proof {
        assert(out@ =~= spec_encode(MetadataView::EpochEndingBackupRange(r@)));
    }
    out
}

fn encode_snapshot_leaf_line(e: &StateSnapshotBackupMeta) -> (r: String)
    ensures
        r@ == spec_encode(MetadataView::StateSnapshotBackup(e@)),
{
    let mut out = String::new();
    out.append("{\"StateSnapshotBackup\":");
    append_snapshot_leaf(&mut out, e);
    out.append("}");
    proof {
        assert(out@ =~= spec_encode(MetadataView::StateSnapshotBackup(e@)));
    }
    out
}

#[verifier::rlimit(100)]
#[verifier::spinoff_prover]
fn encode_snapshot_range_line(r: &StateSnapshotBackupMetaRange) -> (res: String)
    ensures
        res@ == spec_encode(MetadataView::StateSnapshotBackupRange(r@)),
{
    let mut out = String::new();
    out.append("{\"StateSnapshotBackupRange\":");
    out.append("{\"first_epoch\":");
    append_u64(&mut out, r.first_epoch);
    out.append(",\"last_epoch\":");
    append_u64(&mut out, r.last_epoch);
    out.append(",\"first_version\":");
    append_u64(&mut out, r.first_version);
    out.append(",\"last_version\":");
    append_u64(&mut out, r.last_version);
    out.append(",\"backup_metas\":[");
    append_snapshot_list(&mut out, &r.backup_metas);
    out.append("]}}");
    proof {
        assert(out@ =~= spec_encode(MetadataView::StateSnapshotBackupRange(r@)));
    }
    out
}

fn encode_transaction_leaf_line(e: &TransactionBackupMeta) -> (r: String)
    ensures
        r@ == spec_encode(MetadataView::TransactionBackup(e@)),
{
    let mut out = String::new();
    out.append("{\"TransactionBackup\":");
    append_transaction_leaf(&mut out, e);
    out.append("}");
    proof {
        assert(out@ =~= spec_encode(MetadataView::TransactionBackup(e@)));
    }
    out
}

fn encode_transaction_range_line(r: &TransactionBackupMetaRange) -> (res: String)
    ensures
        res@ == spec_encode(MetadataView::TransactionBackupRange(r@)),
{
    let mut out = String::new();
    out.append("{\"TransactionBackupRange\":");
    out.append("{\"first_version\":");
    append_u64(&mut out, r.first_version);
    out.append(",\"last_version\":");
    append_u64(&mut out, r.last_version);
    out.append(",\"backup_metas\":[");
    append_transaction_list(&mut out, &r.backup_metas);
    out.append("]}}");
    proof {
        assert(out@ =~= spec_encode(MetadataView::TransactionBackupRange(r@)));
    }
    out
}

fn encode_identity_line(i: &IdentityMeta) -> (r: String)
    ensures
        r@ == spec_encode(MetadataView::Identity(i@)),
{
    let mut out = String::new();
    out.append("{\"Identity\":{\"id\":\"");
    append_hex(&mut out, &i.id);
    out.append("\"}}");
    proof {
        assert(out@ =~= spec_encode(MetadataView::Identity(i@)));
    }
    out
}

impl Metadata {
    /// Encodes the record as one line of tagged, lossless text. The encoder
    /// is total: every record yields its exact canonical line.
    pub fn to_text_line(&self) -> (r: TextLine)
        ensures
            r.wf(),
            r@ == spec_encode(self@),
    {
        let out = match self {
            Metadata::EpochEndingBackup(e) => encode_epoch_leaf_line(e),
            Metadata::EpochEndingBackupRange(r) => encode_epoch_range_line(r),
            Metadata::StateSnapshotBackup(e) => encode_snapshot_leaf_line(e),
            Metadata::StateSnapshotBackupRange(r) => encode_snapshot_range_line(r),
            Metadata::TransactionBackup(e) => encode_transaction_leaf_line(e),
            Metadata::TransactionBackupRange(r) => encode_transaction_range_line(r),
            Metadata::Identity(i) => encode_identity_line(i),
        };
        proof {
            lemma_encode_single_line(self@);
        }
        TextLine::new_checked(out)
    }
}

// ------------------------------------------------------------------
// The encoded line holds no line break.
// ------------------------------------------------------------------

/// Freedom from line breaks is preserved by concatenation.
proof fn lemma_single_line_concat(a: Seq<char>, b: Seq<char>)
    requires
        single_line(a),
        single_line(b),
    ensures
        single_line(a + b),
{
    assert forall|i: int| 0 <= i < (a + b).len() implies #[trigger] (a + b)[i] != '\n' && (a
        + b)[i] != '\r' by {
        if i < a.len() {
            assert((a + b)[i] == a[i]);
        } else {
            assert((a + b)[i] == b[i - a.len()]);
        }
    }
}

/// Decimal renderings hold no line break.
proof fn lemma_dec_of_single_line(n: nat)
    ensures
        single_line(dec_of(n)),
{
    crate::naming::lemma_dec_of_chars(n);
}

/// Hexadecimal renderings hold no line break.
proof fn lemma_hex_of_single_line(bytes: Seq<u8>)
    ensures
        single_line(hex_of(bytes)),
{
    assert forall|i: int| 0 <= i < hex_of(bytes).len() implies #[trigger] hex_of(bytes)[i] != '\n'
        && hex_of(bytes)[i] != '\r' by {
        if i % 2 == 0 {
            lemma_hex_digit_val((bytes[i / 2] / 16) as nat);
        } else {
            lemma_hex_digit_val((bytes[i / 2] % 16) as nat);
        }
    }
}

/// Escaped strings hold no line break: control characters are rewritten to
/// escapes whose characters are all printable.
proof fn lemma_esc_single_line(s: Seq<char>)
    ensures
        single_line(esc(s)),
    decreases s.len(),
{
    if s.len() > 0 {
        lemma_esc_single_line(s.drop_first());
        let c = s[0];
        if c != '"' && c != '\\' && (c as u32) < 32 {
            lemma_hex_digit_val(((c as u32) / 16) as nat);
            lemma_hex_digit_val(((c as u32) % 16) as nat);
        }
        lemma_single_line_concat(esc_char(c), esc(s.drop_first()));
    }
}

/// Epoch-ending leaf objects hold no line break.
proof fn lemma_enc_epoch_leaf_single_line(e: EpochEndingBackupMetaView)
    ensures
        single_line(enc_epoch_leaf(e)),
{
    reveal_strlit("{\"first_epoch\":");
    reveal_strlit(",\"last_epoch\":");
    reveal_strlit(",\"first_version\":");
    reveal_strlit(",\"last_version\":");
    reveal_strlit(",\"manifest\":\"");
    reveal_strlit("\"}");
    let l1 = "{\"first_epoch\":"@;
    let l2 = ",\"last_epoch\":"@;
    let l3 = ",\"first_version\":"@;
    let l4 = ",\"last_version\":"@;
    let l5 = ",\"manifest\":\""@;
    let l6 = "\"}"@;
    let d1 = dec_of(e.first_epoch as nat);
    let d2 = dec_of(e.last_epoch as nat);
    let d3 = dec_of(e.first_version as nat);
    let d4 = dec_of(e.last_version as nat);
    let em = esc(e.manifest);
    lemma_dec_of_single_line(e.first_epoch as nat);
    lemma_dec_of_single_line(e.last_epoch as nat);
    lemma_dec_of_single_line(e.first_version as nat);
    lemma_dec_of_single_line(e.last_version as nat);
    lemma_esc_single_line(e.manifest);
    assert(single_line(l1));
    assert(single_line(l2));
    assert(single_line(l3));
    assert(single_line(l4));
    assert(single_line(l5));
    assert(single_line(l6));
    lemma_single_line_concat(em, l6);
    lemma_single_line_concat(l5, em + l6);
    lemma_single_line_concat(d4, l5 + (em + l6));
    lemma_single_line_concat(l4, d4 + (l5 + (em + l6)));
    lemma_single_line_concat(d3, l4 + (d4 + (l5 + (em + l6))));
    lemma_single_line_concat(l3, d3 + (l4 + (d4 + (l5 + (em + l6)))));
    lemma_single_line_concat(d2, l3 + (d3 + (l4 + (d4 + (l5 + (em + l6))))));
    lemma_single_line_concat(l2, d2 + (l3 + (d3 + (l4 + (d4 + (l5 + (em + l6)))))));
    lemma_single_line_concat(d1, l2 + (d2 + (l3 + (d3 + (l4 + (d4 + (l5 + (em + l6))))))));
    lemma_single_line_concat(
        l1,
        d1 + (l2 + (d2 + (l3 + (d3 + (l4 + (d4 + (l5 + (em + l6)))))))),
    );
}

/// Snapshot leaf objects hold no line break.
proof fn lemma_enc_snapshot_leaf_single_line(e: StateSnapshotBackupMetaView)
    ensures
        single_line(enc_snapshot_leaf(e)),
{
    reveal_strlit("{\"epoch\":");
    reveal_strlit(",\"version\":");
    reveal_strlit(",\"manifest\":\"");
    reveal_strlit("\"}");
    let l1 = "{\"epoch\":"@;
    let l2 = ",\"version\":"@;
    let l5 = ",\"manifest\":\""@;
    let l6 = "\"}"@;
    let d1 = dec_of(e.epoch as nat);
    let d2 = dec_of(e.version as nat);
    let em = esc(e.manifest);
    lemma_dec_of_single_line(e.epoch as nat);
    lemma_dec_of_single_line(e.version as nat);
    lemma_esc_single_line(e.manifest);
    assert(single_line(l1));
    assert(single_line(l2));
    assert(single_line(l5));
    assert(single_line(l6));
    lemma_single_line_concat(em, l6);
    lemma_single_line_concat(l5, em + l6);
    lemma_single_line_concat(d2, l5 + (em + l6));
    lemma_single_line_concat(l2, d2 + (l5 + (em + l6)));
    lemma_single_line_concat(d1, l2 + (d2 + (l5 + (em + l6))));
    lemma_single_line_concat(l1, d1 + (l2 + (d2 + (l5 + (em + l6)))));
}

/// Transaction leaf objects hold no line break.
proof fn lemma_enc_transaction_leaf_single_line(e: TransactionBackupMetaView)
    ensures
        single_line(enc_transaction_leaf(e)),
{
    reveal_strlit("{\"first_version\":");
    reveal_strlit(",\"last_version\":");
    reveal_strlit(",\"manifest\":\"");
    reveal_strlit("\"}");
    let l1 = "{\"first_version\":"@;
    let l2 = ",\"last_version\":"@;
    let l5 = ",\"manifest\":\""@;
    let l6 = "\"}"@;
    let d1 = dec_of(e.first_version as nat);
    let d2 = dec_of(e.last_version as nat);
    let em = esc(e.manifest);
    lemma_dec_of_single_line(e.first_version as nat);
    lemma_dec_of_single_line(e.last_version as nat);
    lemma_esc_single_line(e.manifest);
    assert(single_line(l1));
    assert(single_line(l2));
    assert(single_line(l5));
    assert(single_line(l6));
    lemma_single_line_concat(em, l6);
    lemma_single_line_concat(l5, em + l6);
    lemma_single_line_concat(d2, l5 + (em + l6));
    lemma_single_line_concat(l2, d2 + (l5 + (em + l6)));
    lemma_single_line_concat(d1, l2 + (d2 + (l5 + (em + l6))));
    lemma_single_line_concat(l1, d1 + (l2 + (d2 + (l5 + (em + l6)))));
}

proof fn lemma_enc_epoch_list_single_line(v: Seq<EpochEndingBackupMetaView>)
    ensures
        single_line(enc_epoch_list(v)),
    decreases v.len(),
{
    reveal_strlit(",");
    if v.len() == 1 {
        lemma_enc_epoch_leaf_single_line(v[0]);
    } else if v.len() > 1 {
        lemma_enc_epoch_leaf_single_line(v[0]);
        lemma_enc_epoch_list_single_line(v.drop_first());
        assert(single_line(","@));
        lemma_single_line_concat(","@, enc_epoch_list(v.drop_first()));
        lemma_single_line_concat(enc_epoch_leaf(v[0]), ","@ + enc_epoch_list(v.drop_first()));

    }
}

proof fn lemma_enc_snapshot_list_single_line(v: Seq<StateSnapshotBackupMetaView>)
    ensures
        single_line(enc_snapshot_list(v)),
    decreases v.len(),
{
    reveal_strlit(",");
    if v.len() == 1 {
        lemma_enc_snapshot_leaf_single_line(v[0]);
    } else if v.len() > 1 {
        lemma_enc_snapshot_leaf_single_line(v[0]);
        lemma_enc_snapshot_list_single_line(v.drop_first());
        assert(single_line(","@));
        lemma_single_line_concat(enc_snapshot_leaf(v[0]), ","@);
        lemma_single_line_concat(
            enc_snapshot_leaf(v[0]) + ","@,
            enc_snapshot_list(v.drop_first()),
        );

    }
}

proof fn lemma_enc_transaction_list_single_line(v: Seq<TransactionBackupMetaView>)
    ensures
        single_line(enc_transaction_list(v)),
    decreases v.len(),
{
    reveal_strlit(",");
    if v.len() == 1 {
        lemma_enc_transaction_leaf_single_line(v[0]);
    } else if v.len() > 1 {
        lemma_enc_transaction_leaf_single_line(v[0]);
        lemma_enc_transaction_list_single_line(v.drop_first());
        assert(single_line(","@));
        lemma_single_line_concat(enc_transaction_leaf(v[0]), ","@);
        lemma_single_line_concat(
            enc_transaction_leaf(v[0]) + ","@,
            enc_transaction_list(v.drop_first()),
        );

    }
}

/// Every encoded record is one physical line.
pub proof fn lemma_encode_single_line(m: MetadataView)
    ensures
        single_line(spec_encode(m)),
{
    reveal_strlit("{\"EpochEndingBackup\":");
    reveal_strlit("{\"EpochEndingBackupRange\":");
    reveal_strlit("{\"StateSnapshotBackup\":");
    reveal_strlit("{\"StateSnapshotBackupRange\":");
    reveal_strlit("{\"TransactionBackup\":");
    reveal_strlit("{\"TransactionBackupRange\":");
    reveal_strlit("{\"Identity\":{\"id\":\"");
    reveal_strlit("}");
    reveal_strlit("\"}}");
    match m {
        MetadataView::EpochEndingBackup(e) => {
            lemma_enc_epoch_leaf_single_line(e);
            assert(single_line("{\"EpochEndingBackup\":"@));
            assert(single_line("}"@));
            lemma_single_line_concat(enc_epoch_leaf(e), "}"@);
            lemma_single_line_concat("{\"EpochEndingBackup\":"@, enc_epoch_leaf(e) + "}"@);
        },
        MetadataView::EpochEndingBackupRange(r) => {
            lemma_enc_epoch_range_obj_single_line(r);
            assert(single_line("{\"EpochEndingBackupRange\":"@));
            lemma_single_line_concat("{\"EpochEndingBackupRange\":"@, enc_epoch_range_obj(r));
        },
        MetadataView::StateSnapshotBackup(e) => {
            lemma_enc_snapshot_leaf_single_line(e);
            assert(single_line("{\"StateSnapshotBackup\":"@));
            assert(single_line("}"@));
            lemma_single_line_concat(enc_snapshot_leaf(e), "}"@);
            lemma_single_line_concat("{\"StateSnapshotBackup\":"@, enc_snapshot_leaf(e) + "}"@);
        },
        MetadataView::StateSnapshotBackupRange(r) => {
            lemma_enc_snapshot_range_obj_single_line(r);
            assert(single_line("{\"StateSnapshotBackupRange\":"@));
            lemma_single_line_concat(
                "{\"StateSnapshotBackupRange\":"@,
                enc_snapshot_range_obj(r),
            );
        },
        MetadataView::TransactionBackup(e) => {
            lemma_enc_transaction_leaf_single_line(e);
            assert(single_line("{\"TransactionBackup\":"@));
            assert(single_line("}"@));
            lemma_single_line_concat(enc_transaction_leaf(e), "}"@);
            lemma_single_line_concat(
                "{\"TransactionBackup\":"@,
                enc_transaction_leaf(e) + "}"@,
            );
        },
        MetadataView::TransactionBackupRange(r) => {
            lemma_enc_transaction_range_obj_single_line(r);
            assert(single_line("{\"TransactionBackupRange\":"@));
            lemma_single_line_concat(
                "{\"TransactionBackupRange\":"@,
                enc_transaction_range_obj(r),
            );
        },
        MetadataView::Identity(i) => {
            lemma_hex_of_single_line(i.id);
            assert(single_line("{\"Identity\":{\"id\":\""@));
            assert(single_line("\"}}"@));
            lemma_single_line_concat(hex_of(i.id), "\"}}"@);
            lemma_single_line_concat("{\"Identity\":{\"id\":\""@, hex_of(i.id) + "\"}}"@);
        },
    }
}

/// Epoch-ending range bodies hold no line break.
proof fn lemma_enc_epoch_range_obj_single_line(r: EpochEndingBackupMetaRangeView)
    ensures
        single_line(enc_epoch_range_obj(r)),
{
    reveal_strlit("{\"first_epoch\":");
    reveal_strlit(",\"last_epoch\":");
    reveal_strlit(",\"first_version\":");
    reveal_strlit(",\"last_version\":");
    reveal_strlit(",\"backup_metas\":[");
    reveal_strlit("]}}");
    let l1 = "{\"first_epoch\":"@;
    let l2 = ",\"last_epoch\":"@;
    let l3 = ",\"first_version\":"@;
    let l4 = ",\"last_version\":"@;
    let l5 = ",\"backup_metas\":["@;
    let l6 = "]}}"@;
    let d1 = dec_of(r.first_epoch as nat);
    let d2 = dec_of(r.last_epoch as nat);
    let d3 = dec_of(r.first_version as nat);
    let d4 = dec_of(r.last_version as nat);
    let w = enc_epoch_list(r.backup_metas);
    lemma_dec_of_single_line(r.first_epoch as nat);
    lemma_dec_of_single_line(r.last_epoch as nat);
    lemma_dec_of_single_line(r.first_version as nat);
    lemma_dec_of_single_line(r.last_version as nat);
    lemma_enc_epoch_list_single_line(r.backup_metas);
    assert(single_line(l1));
    assert(single_line(l2));
    assert(single_line(l3));
    assert(single_line(l4));
    assert(single_line(l5));
    assert(single_line(l6));
    lemma_single_line_concat(w, l6);
    lemma_single_line_concat(l5, w + l6);
    lemma_single_line_concat(d4, l5 + (w + l6));
    lemma_single_line_concat(l4, d4 + (l5 + (w + l6)));
    lemma_single_line_concat(d3, l4 + (d4 + (l5 + (w + l6))));
    lemma_single_line_concat(l3, d3 + (l4 + (d4 + (l5 + (w + l6)))));
    lemma_single_line_concat(d2, l3 + (d3 + (l4 + (d4 + (l5 + (w + l6))))));
    lemma_single_line_concat(l2, d2 + (l3 + (d3 + (l4 + (d4 + (l5 + (w + l6)))))));
    lemma_single_line_concat(d1, l2 + (d2 + (l3 + (d3 + (l4 + (d4 + (l5 + (w + l6))))))));
    lemma_single_line_concat(
        l1,
        d1 + (l2 + (d2 + (l3 + (d3 + (l4 + (d4 + (l5 + (w + l6)))))))),
    );
}

/// Snapshot range bodies hold no line break.
proof fn lemma_enc_snapshot_range_obj_single_line(r: StateSnapshotBackupMetaRangeView)
    ensures
        single_line(enc_snapshot_range_obj(r)),
{
    reveal_strlit("{\"first_epoch\":");
    reveal_strlit(",\"last_epoch\":");
    reveal_strlit(",\"first_version\":");
    reveal_strlit(",\"last_version\":");
    reveal_strlit(",\"backup_metas\":[");
    reveal_strlit("]}}");
    let l1 = "{\"first_epoch\":"@;
    let l2 = ",\"last_epoch\":"@;
    let l3 = ",\"first_version\":"@;
    let l4 = ",\"last_version\":"@;
    let l5 = ",\"backup_metas\":["@;
    let l6 = "]}}"@;
    let d1 = dec_of(r.first_epoch as nat);
    let d2 = dec_of(r.last_epoch as nat);
    let d3 = dec_of(r.first_version as nat);
    let d4 = dec_of(r.last_version as nat);
    let w = enc_snapshot_list(r.backup_metas);
    lemma_dec_of_single_line(r.first_epoch as nat);
    lemma_dec_of_single_line(r.last_epoch as nat);
    lemma_dec_of_single_line(r.first_version as nat);
    lemma_dec_of_single_line(r.last_version as nat);
    lemma_enc_snapshot_list_single_line(r.backup_metas);
    assert(single_line(l1));
    assert(single_line(l2));
    assert(single_line(l3));
    assert(single_line(l4));
    assert(single_line(l5));
    assert(single_line(l6));
    lemma_single_line_concat(w, l6);
    lemma_single_line_concat(l5, w + l6);
    lemma_single_line_concat(d4, l5 + (w + l6));
    lemma_single_line_concat(l4, d4 + (l5 + (w + l6)));
    lemma_single_line_concat(d3, l4 + (d4 + (l5 + (w + l6))));
    lemma_single_line_concat(l3, d3 + (l4 + (d4 + (l5 + (w + l6)))));
    lemma_single_line_concat(d2, l3 + (d3 + (l4 + (d4 + (l5 + (w + l6))))));
    lemma_single_line_concat(l2, d2 + (l3 + (d3 + (l4 + (d4 + (l5 + (w + l6)))))));
    lemma_single_line_concat(d1, l2 + (d2 + (l3 + (d3 + (l4 + (d4 + (l5 + (w + l6))))))));
    lemma_single_line_concat(
        l1,
        d1 + (l2 + (d2 + (l3 + (d3 + (l4 + (d4 + (l5 + (w + l6)))))))),
    );
}

/// Transaction range bodies hold no line break.
proof fn lemma_enc_transaction_range_obj_single_line(r: TransactionBackupMetaRangeView)
    ensures
        single_line(enc_transaction_range_obj(r)),
{
    reveal_strlit("{\"first_version\":");
    reveal_strlit(",\"last_version\":");
    reveal_strlit(",\"backup_metas\":[");
    reveal_strlit("]}}");
    let l1 = "{\"first_version\":"@;
    let l2 = ",\"last_version\":"@;
    let l5 = ",\"backup_metas\":["@;
    let l6 = "]}}"@;
    let d1 = dec_of(r.first_version as nat);
    let d2 = dec_of(r.last_version as nat);
    let w = enc_transaction_list(r.backup_metas);
    lemma_dec_of_single_line(r.first_version as nat);
    lemma_dec_of_single_line(r.last_version as nat);
    lemma_enc_transaction_list_single_line(r.backup_metas);
    assert(single_line(l1));
    assert(single_line(l2));
    assert(single_line(l5));
    assert(single_line(l6));
    lemma_single_line_concat(w, l6);
    lemma_single_line_concat(l5, w + l6);
    lemma_single_line_concat(d2, l5 + (w + l6));
    lemma_single_line_concat(l2, d2 + (l5 + (w + l6)));
    lemma_single_line_concat(d1, l2 + (d2 + (l5 + (w + l6))));
    lemma_single_line_concat(l1, d1 + (l2 + (d2 + (l5 + (w + l6)))));
}

} // verus!
