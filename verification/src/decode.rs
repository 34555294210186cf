//! Strict decoding of persisted metadata lines: a specification-level parser
//! for the canonical encoding, the proof that it inverts the encoder, and the
//! executable decoder.

use vstd::prelude::*;

use crate::codec::enc_epoch_leaf;
use crate::codec::enc_epoch_list;
use crate::codec::enc_epoch_range_obj;
use crate::codec::enc_snapshot_leaf;
use crate::codec::enc_snapshot_list;
use crate::codec::enc_snapshot_range_obj;
use crate::codec::enc_transaction_leaf;
use crate::codec::enc_transaction_list;
use crate::codec::enc_transaction_range_obj;
use crate::codec::esc;
use crate::codec::esc_char;
use crate::codec::hex_digit;
use crate::codec::hex_digit_val;
use crate::codec::hex_of;
use crate::codec::is_hex_digit_char;
use crate::codec::lemma_hex_digit_val;
use crate::codec::spec_encode;
use crate::metadata::EpochEndingBackupMeta;
use crate::metadata::EpochEndingBackupMetaRange;
use crate::metadata::EpochEndingBackupMetaRangeView;
use crate::metadata::EpochEndingBackupMetaView;
use crate::metadata::IdentityMetaView;
use crate::metadata::MetadataView;
use crate::metadata::Metadata;
use crate::metadata::StateSnapshotBackupMeta;
use crate::metadata::StateSnapshotBackupMetaRange;
use crate::metadata::StateSnapshotBackupMetaRangeView;
use crate::metadata::StateSnapshotBackupMetaView;
use crate::metadata::IdentityMeta;
use crate::metadata::TransactionBackupMeta;
use crate::metadata::TransactionBackupMetaRange;
use crate::metadata::TransactionBackupMetaRangeView;
use crate::metadata::TransactionBackupMetaView;
use crate::naming::dec_of;
use crate::naming::dec_val;
use crate::naming::is_dec_digit_char;
use crate::naming::lemma_dec_of_chars;
use crate::naming::lemma_dec_of_len_u64;
use crate::naming::lemma_dec_val_of_dec_of;
use crate::naming::pow10;

verus! {

// ------------------------------------------------------------------
// Primitive parsers.
// ------------------------------------------------------------------

/// The literal `lit` stands in `s` at position `i`.
pub open spec fn match_at(s: Seq<char>, i: int, lit: Seq<char>) -> bool {
    &&& 0 <= i
    &&& i + lit.len() <= s.len()
    &&& s.subrange(i, i + lit.len()) == lit
}

/// Consuming a literal: the position just past it, if it stands at `i`.
pub open spec fn parse_lit(s: Seq<char>, i: int, lit: Seq<char>) -> Option<int> {
    if match_at(s, i, lit) {
        Some(i + lit.len())
    } else {
        None
    }
}

/// The first position at or after `i` holding no decimal digit.
pub open spec fn scan_digits(s: Seq<char>, i: int) -> int
    decreases s.len() - i,
    when 0 <= i <= s.len()
{
    if i < s.len() && is_dec_digit_char(s[i]) {
        scan_digits(s, i + 1)
    } else {
        i
    }
}

/// Basic facts about the digit scan: it stays in bounds, scans only digits,
/// and stops at a non-digit or the end.
pub proof fn lemma_scan_digits(s: Seq<char>, i: int)
    requires
        0 <= i <= s.len(),
    ensures
        i <= scan_digits(s, i) <= s.len(),
        forall|k: int| i <= k < scan_digits(s, i) ==> is_dec_digit_char(#[trigger] s[k]),
        scan_digits(s, i) < s.len() ==> !is_dec_digit_char(s[scan_digits(s, i)]),
    decreases s.len() - i,
{
    if i < s.len() && is_dec_digit_char(s[i]) {
        lemma_scan_digits(s, i + 1);
    }
}

/// Consuming a decimal number: the canonical digit run at `i`, rejected when
/// absent, padded with a leading zero, longer than twenty digits, or beyond
/// the 64-bit range.
pub open spec fn parse_dec(s: Seq<char>, i: int) -> Option<(u64, int)>
    recommends
        0 <= i <= s.len(),
{
    let j = scan_digits(s, i);
    if j == i {
        None
    } else if s[i] == '0' && j - i > 1 {
        None
    } else if j - i > 20 {
        None
    } else if dec_val(s.subrange(i, j)) > u64::MAX {
        None
    } else {
        Some((dec_val(s.subrange(i, j)) as u64, j))
    }
}

/// Consuming a quoted-string body: characters up to the next unescaped
/// quote, with quote, backslash and `\u00..` escapes decoded; the closing
/// quote is consumed.
pub open spec fn parse_jstr(s: Seq<char>, i: int) -> Option<(Seq<char>, int)>
    decreases s.len() - i,
    when 0 <= i <= s.len()
{
    if i >= s.len() {
        None
    } else if s[i] == '"' {
        Some((Seq::<char>::empty(), i + 1))
    } else if s[i] == '\\' {
        if i + 2 <= s.len() && (s[i + 1] == '"' || s[i + 1] == '\\') {
            match parse_jstr(s, i + 2) {
                Some((t, j)) => Some((seq![s[i + 1]] + t, j)),
                None => None,
            }
        } else if i + 6 <= s.len() && s[i + 1] == 'u' && s[i + 2] == '0' && s[i + 3] == '0'
            && is_hex_digit_char(s[i + 4]) && is_hex_digit_char(s[i + 5]) && hex_digit_val(
            s[i + 4],
        ) * 16 + hex_digit_val(s[i + 5]) < 32 {
            match parse_jstr(s, i + 6) {
                Some(
                    (t, j),
                ) => Some(
                    (
                        seq![(((hex_digit_val(s[i + 4]) * 16 + hex_digit_val(s[i + 5])) as u32) as char)]
                            + t,
                        j,
                    ),
                ),
                None => None,
            }
        } else {
            None
        }
    } else if (s[i] as u32) < 32 {
        None
    } else {
        match parse_jstr(s, i + 1) {
            Some((t, j)) => Some((seq![s[i]] + t, j)),
            None => None,
        }
    }
}

/// Sixty-four lowercase hexadecimal digits stand at `i`.
pub open spec fn hex64_at(s: Seq<char>, i: int) -> bool {
    &&& 0 <= i
    &&& i + 64 <= s.len()
    &&& forall|k: int| 0 <= k < 64 ==> is_hex_digit_char(#[trigger] s[i + k])
}

/// Consuming a 256-bit id: exactly sixty-four hexadecimal digits, two per
/// byte, high digit first.
pub open spec fn parse_hex64(s: Seq<char>, i: int) -> Option<(Seq<u8>, int)> {
    if hex64_at(s, i) {
        Some(
            (
                Seq::new(
                    32,
                    |k: int|
                        (hex_digit_val(s[i + 2 * k]) * 16 + hex_digit_val(s[i + 2 * k + 1])) as u8,
                ),
                i + 64,
            ),
        )
    } else {
        None
    }
}

// ------------------------------------------------------------------
// Record parsers.
// ------------------------------------------------------------------

/// Parses one epoch-ending leaf object.
pub open spec fn parse_epoch_leaf(s: Seq<char>, i: int) -> Option<(EpochEndingBackupMetaView, int)>
    recommends
        0 <= i <= s.len(),
{
    match parse_lit(s, i, "{\"first_epoch\":"@) {
        None => None,
        Some(i1) => match parse_dec(s, i1) {
            None => None,
            Some((fe, i2)) => match parse_lit(s, i2, ",\"last_epoch\":"@) {
                None => None,
                Some(i3) => match parse_dec(s, i3) {
                    None => None,
                    Some((le, i4)) => match parse_lit(s, i4, ",\"first_version\":"@) {
                        None => None,
                        Some(i5) => match parse_dec(s, i5) {
                            None => None,
                            Some((fv, i6)) => match parse_lit(s, i6, ",\"last_version\":"@) {
                                None => None,
                                Some(i7) => match parse_dec(s, i7) {
                                    None => None,
                                    Some((lv, i8)) => match parse_lit(s, i8, ",\"manifest\":\""@) {
                                        None => None,
                                        Some(i9) => match parse_jstr(s, i9) {
                                            None => None,
                                            Some((man, i10)) => match parse_lit(s, i10, "}"@) {
                                                None => None,
                                                Some(i11) => Some(
                                                    (
                                                        EpochEndingBackupMetaView {
                                                            first_epoch: fe,
                                                            last_epoch: le,
                                                            first_version: fv,
                                                            last_version: lv,
                                                            manifest: man,
                                                        },
                                                        i11,
                                                    ),
                                                ),
                                            },
                                        },
                                    },
                                },
                            },
                        },
                    },
                },
            },
        },
    }
}

/// Parses one snapshot leaf object.
pub open spec fn parse_snapshot_leaf(s: Seq<char>, i: int) -> Option<
    (StateSnapshotBackupMetaView, int),
>
    recommends
        0 <= i <= s.len(),
{
    match parse_lit(s, i, "{\"epoch\":"@) {
        None => None,
        Some(i1) => match parse_dec(s, i1) {
            None => None,
            Some((ep, i2)) => match parse_lit(s, i2, ",\"version\":"@) {
                None => None,
                Some(i3) => match parse_dec(s, i3) {
                    None => None,
                    Some((ver, i4)) => match parse_lit(s, i4, ",\"manifest\":\""@) {
                        None => None,
                        Some(i5) => match parse_jstr(s, i5) {
                            None => None,
                            Some((man, i6)) => match parse_lit(s, i6, "}"@) {
                                None => None,
                                Some(i7) => Some(
                                    (
                                        StateSnapshotBackupMetaView {
                                            epoch: ep,
                                            version: ver,
                                            manifest: man,
                                        },
                                        i7,
                                    ),
                                ),
                            },
                        },
                    },
                },
            },
        },
    }
}

/// Parses one transaction leaf object.
pub open spec fn parse_transaction_leaf(s: Seq<char>, i: int) -> Option<
    (TransactionBackupMetaView, int),
>
    recommends
        0 <= i <= s.len(),
{
    match parse_lit(s, i, "{\"first_version\":"@) {
        None => None,
        Some(i1) => match parse_dec(s, i1) {
            None => None,
            Some((fv, i2)) => match parse_lit(s, i2, ",\"last_version\":"@) {
                None => None,
                Some(i3) => match parse_dec(s, i3) {
                    None => None,
                    Some((lv, i4)) => match parse_lit(s, i4, ",\"manifest\":\""@) {
                        None => None,
                        Some(i5) => match parse_jstr(s, i5) {
                            None => None,
                            Some((man, i6)) => match parse_lit(s, i6, "}"@) {
                                None => None,
                                Some(i7) => Some(
                                    (
                                        TransactionBackupMetaView {
                                            first_version: fv,
                                            last_version: lv,
                                            manifest: man,
                                        },
                                        i7,
                                    ),
                                ),
                            },
                        },
                    },
                },
            },
        },
    }
}

/// Parses a non-empty comma-joined list of epoch-ending leaf objects.
pub open spec fn parse_epoch_list(s: Seq<char>, i: int) -> Option<
    (Seq<EpochEndingBackupMetaView>, int),
>
    decreases s.len() - i,
    when 0 <= i <= s.len()
{
    match parse_epoch_leaf(s, i) {
        None => None,
        Some((e, j)) => if !(i < j <= s.len()) {
            None
        } else if j < s.len() && s[j] == ',' {
            match parse_epoch_list(s, j + 1) {
                None => None,
                Some((w, k)) => Some((seq![e] + w, k)),
            }
        } else {
            Some((seq![e], j))
        },
    }
}

/// Parses a non-empty comma-joined list of snapshot leaf objects.
pub open spec fn parse_snapshot_list(s: Seq<char>, i: int) -> Option<
    (Seq<StateSnapshotBackupMetaView>, int),
>
    decreases s.len() - i,
    when 0 <= i <= s.len()
{
    match parse_snapshot_leaf(s, i) {
        None => None,
        Some((e, j)) => if !(i < j <= s.len()) {
            None
        } else if j < s.len() && s[j] == ',' {
            match parse_snapshot_list(s, j + 1) {
                None => None,
                Some((w, k)) => Some((seq![e] + w, k)),
            }
        } else {
            Some((seq![e], j))
        },
    }
}

/// Parses a non-empty comma-joined list of transaction leaf objects.
pub open spec fn parse_transaction_list(s: Seq<char>, i: int) -> Option<
    (Seq<TransactionBackupMetaView>, int),
>
    decreases s.len() - i,
    when 0 <= i <= s.len()
{
    match parse_transaction_leaf(s, i) {
        None => None,
        Some((e, j)) => if !(i < j <= s.len()) {
            None
        } else if j < s.len() && s[j] == ',' {
            match parse_transaction_list(s, j + 1) {
                None => None,
                Some((w, k)) => Some((seq![e] + w, k)),
            }
        } else {
            Some((seq![e], j))
        },
    }
}

/// Parses the four bounds and member list of an epoch-ending range body,
/// starting right after the range's opening `{`-and-first-key literal.
pub open spec fn parse_epoch_range(s: Seq<char>, i: int) -> Option<MetadataView>
    recommends
        0 <= i <= s.len(),
{
    match parse_dec(s, i) {
        None => None,
        Some((fe, i2)) => match parse_lit(s, i2, ",\"last_epoch\":"@) {
            None => None,
            Some(i3) => match parse_dec(s, i3) {
                None => None,
                Some((le, i4)) => match parse_lit(s, i4, ",\"first_version\":"@) {
                    None => None,
                    Some(i5) => match parse_dec(s, i5) {
                        None => None,
                        Some((fv, i6)) => match parse_lit(s, i6, ",\"last_version\":"@) {
                            None => None,
                            Some(i7) => match parse_dec(s, i7) {
                                None => None,
                                Some((lv, i8)) => match parse_lit(s, i8, ",\"backup_metas\":["@) {
                                    None => None,
                                    Some(i9) => if !(0 <= i9 <= s.len()) {
                                        None
                                    } else if match_at(s, i9, "]}}"@) {
                                        if i9 + 3 == s.len() {
                                            Some(
                                                MetadataView::EpochEndingBackupRange(
                                                    EpochEndingBackupMetaRangeView {
                                                        first_epoch: fe,
                                                        last_epoch: le,
                                                        first_version: fv,
                                                        last_version: lv,
                                                        backup_metas: Seq::empty(),
                                                    },
                                                ),
                                            )
                                        } else {
                                            None
                                        }
                                    } else {
                                        match parse_epoch_list(s, i9) {
                                            None => None,
                                            Some((w, q)) => if match_at(s, q, "]}}"@) && q + 3
                                                == s.len() {
                                                Some(
                                                    MetadataView::EpochEndingBackupRange(
                                                        EpochEndingBackupMetaRangeView {
                                                            first_epoch: fe,
                                                            last_epoch: le,
                                                            first_version: fv,
                                                            last_version: lv,
                                                            backup_metas: w,
                                                        },
                                                    ),
                                                )
                                            } else {
                                                None
                                            },
                                        }
                                    },
                                },
                            },
                        },
                    },
                },
            },
        },
    }
}

/// Parses the four bounds and member list of a snapshot range body.
pub open spec fn parse_snapshot_range(s: Seq<char>, i: int) -> Option<MetadataView>
    recommends
        0 <= i <= s.len(),
{
    match parse_dec(s, i) {
        None => None,
        Some((fe, i2)) => match parse_lit(s, i2, ",\"last_epoch\":"@) {
            None => None,
            Some(i3) => match parse_dec(s, i3) {
                None => None,
                Some((le, i4)) => match parse_lit(s, i4, ",\"first_version\":"@) {
                    None => None,
                    Some(i5) => match parse_dec(s, i5) {
                        None => None,
                        Some((fv, i6)) => match parse_lit(s, i6, ",\"last_version\":"@) {
                            None => None,
                            Some(i7) => match parse_dec(s, i7) {
                                None => None,
                                Some((lv, i8)) => match parse_lit(s, i8, ",\"backup_metas\":["@) {
                                    None => None,
                                    Some(i9) => if !(0 <= i9 <= s.len()) {
                                        None
                                    } else if match_at(s, i9, "]}}"@) {
                                        if i9 + 3 == s.len() {
                                            Some(
                                                MetadataView::StateSnapshotBackupRange(
                                                    StateSnapshotBackupMetaRangeView {
                                                        first_epoch: fe,
                                                        last_epoch: le,
                                                        first_version: fv,
                                                        last_version: lv,
                                                        backup_metas: Seq::empty(),
                                                    },
                                                ),
                                            )
                                        } else {
                                            None
                                        }
                                    } else {
                                        match parse_snapshot_list(s, i9) {
                                            None => None,
                                            Some((w, q)) => if match_at(s, q, "]}}"@) && q + 3
                                                == s.len() {
                                                Some(
                                                    MetadataView::StateSnapshotBackupRange(
                                                        StateSnapshotBackupMetaRangeView {
                                                            first_epoch: fe,
                                                            last_epoch: le,
                                                            first_version: fv,
                                                            last_version: lv,
                                                            backup_metas: w,
                                                        },
                                                    ),
                                                )
                                            } else {
                                                None
                                            },
                                        }
                                    },
                                },
                            },
                        },
                    },
                },
            },
        },
    }
}

/// Parses the two bounds and member list of a transaction range body.
pub open spec fn parse_transaction_range(s: Seq<char>, i: int) -> Option<MetadataView>
    recommends
        0 <= i <= s.len(),
{
    match parse_dec(s, i) {
        None => None,
        Some((fv, i2)) => match parse_lit(s, i2, ",\"last_version\":"@) {
            None => None,
            Some(i3) => match parse_dec(s, i3) {
                None => None,
                Some((lv, i4)) => match parse_lit(s, i4, ",\"backup_metas\":["@) {
                    None => None,
                    Some(i5) => if !(0 <= i5 <= s.len()) {
                        None
                    } else if match_at(s, i5, "]}}"@) {
                        if i5 + 3 == s.len() {
                            Some(
                                MetadataView::TransactionBackupRange(
                                    TransactionBackupMetaRangeView {
                                        first_version: fv,
                                        last_version: lv,
                                        backup_metas: Seq::empty(),
                                    },
                                ),
                            )
                        } else {
                            None
                        }
                    } else {
                        match parse_transaction_list(s, i5) {
                            None => None,
                            Some((w, q)) => if match_at(s, q, "]}}"@) && q + 3 == s.len() {
                                Some(
                                    MetadataView::TransactionBackupRange(
                                        TransactionBackupMetaRangeView {
                                            first_version: fv,
                                            last_version: lv,
                                            backup_metas: w,
                                        },
                                    ),
                                )
                            } else {
                                None
                            },
                        }
                    },
                },
            },
        },
    }
}

/// The strict decoder: accepts a whole line in the canonical encoding and
/// reconstructs the record's model; anything else is rejected.
pub open spec fn spec_decode(s: Seq<char>) -> Option<MetadataView> {
    if match_at(s, 0, "{\"EpochEndingBackup\":"@) {
        match parse_epoch_leaf(s, "{\"EpochEndingBackup\":"@.len() as int) {
            None => None,
            Some((e, j)) => if match_at(s, j, "}"@) && j + 1 == s.len() {
                Some(MetadataView::EpochEndingBackup(e))
            } else {
                None
            },
        }
    } else if match_at(s, 0, "{\"EpochEndingBackupRange\":{\"first_epoch\":"@) {
        parse_epoch_range(s, "{\"EpochEndingBackupRange\":{\"first_epoch\":"@.len() as int)
    } else if match_at(s, 0, "{\"StateSnapshotBackup\":"@) {
        match parse_snapshot_leaf(s, "{\"StateSnapshotBackup\":"@.len() as int) {
            None => None,
            Some((e, j)) => if match_at(s, j, "}"@) && j + 1 == s.len() {
                Some(MetadataView::StateSnapshotBackup(e))
            } else {
                None
            },
        }
    } else if match_at(s, 0, "{\"StateSnapshotBackupRange\":{\"first_epoch\":"@) {
        parse_snapshot_range(s, "{\"StateSnapshotBackupRange\":{\"first_epoch\":"@.len() as int)
    } else if match_at(s, 0, "{\"TransactionBackup\":"@) {
        match parse_transaction_leaf(s, "{\"TransactionBackup\":"@.len() as int) {
            None => None,
            Some((e, j)) => if match_at(s, j, "}"@) && j + 1 == s.len() {
                Some(MetadataView::TransactionBackup(e))
            } else {
                None
            },
        }
    } else if match_at(s, 0, "{\"TransactionBackupRange\":{\"first_version\":"@) {
        parse_transaction_range(s, "{\"TransactionBackupRange\":{\"first_version\":"@.len() as int)
    } else if match_at(s, 0, "{\"Identity\":{\"id\":\""@) {
        match parse_hex64(s, "{\"Identity\":{\"id\":\""@.len() as int) {
            None => None,
            Some((id, j)) => if match_at(s, j, "\"}}"@) && j + 3 == s.len() {
                Some(MetadataView::Identity(IdentityMetaView { id }))
            } else {
                None
            },
        }
    } else {
        None
    }
}


// ------------------------------------------------------------------
// Completeness of the primitive parsers on encoded text.
// ------------------------------------------------------------------

/// Peels a leading piece off a matched concatenation.
proof fn lemma_split(s: Seq<char>, i: int, a: Seq<char>, b: Seq<char>)
    requires
        0 <= i,
        i + a.len() + b.len() <= s.len(),
        s.subrange(i, i + a.len() + b.len()) == a + b,
    ensures
        s.subrange(i, i + a.len()) == a,
        s.subrange(i + a.len(), i + a.len() + b.len()) == b,
        match_at(s, i, a),
{
    assert forall|k: int| 0 <= k < a.len() implies s.subrange(i, i + a.len())[k] == a[k] by {
        assert(s.subrange(i, i + a.len() + b.len())[k] == (a + b)[k]);
    }
    assert(s.subrange(i, i + a.len()) =~= a);
    assert forall|k: int| 0 <= k < b.len() implies s.subrange(
        i + a.len(),
        i + a.len() + b.len(),
    )[k] == b[k] by {
        assert(s.subrange(i + a.len(), i + a.len() + b.len())[k] == s[i + a.len() + k]);
        assert(s.subrange(i, i + a.len() + b.len())[a.len() + k] == s[i + a.len() + k]);
        assert(s.subrange(i, i + a.len() + b.len())[a.len() + k] == (a + b)[a.len() + k]);
        assert((a + b)[a.len() + k] == b[k]);
    }
    assert(s.subrange(i + a.len(), i + a.len() + b.len()) =~= b);
}

/// A matched literal gives the characters under it.
proof fn lemma_match_at_index(s: Seq<char>, i: int, lit: Seq<char>, k: int)
    requires
        match_at(s, i, lit),
        0 <= k < lit.len(),
    ensures
        s[i + k] == lit[k],
{
    assert(s.subrange(i, i + lit.len())[k] == lit[k]);
}

/// The digit scan consumes exactly a digit run bounded by a non-digit.
proof fn lemma_scan_digits_of_digits(s: Seq<char>, i: int, d: Seq<char>)
    requires
        0 <= i,
        i + d.len() <= s.len(),
        s.subrange(i, i + d.len()) == d,
        forall|k: int| 0 <= k < d.len() ==> is_dec_digit_char(#[trigger] d[k]),
        i + d.len() == s.len() || !is_dec_digit_char(s[i + d.len()]),
    ensures
        scan_digits(s, i) == i + d.len(),
    decreases d.len(),
{
    if d.len() == 0 {
        assert(scan_digits(s, i) == i);
    } else {
        assert(s.subrange(i, i + d.len())[0] == d[0]);
        assert(is_dec_digit_char(s[i]));
        assert forall|k: int| 0 <= k < d.drop_first().len() implies s.subrange(
            i + 1,
            i + d.len(),
        )[k] == d.drop_first()[k] by {
            assert(s.subrange(i, i + d.len())[k + 1] == d[k + 1]);
        }
        assert(s.subrange(i + 1, i + d.len()) =~= d.drop_first());
        lemma_scan_digits_of_digits(s, i + 1, d.drop_first());
    }
}

/// The decimal parser reads back exactly an encoded number followed by a
/// non-digit.
proof fn lemma_parse_dec_complete(s: Seq<char>, i: int, n: u64)
    requires
        0 <= i,
        i + dec_of(n as nat).len() <= s.len(),
        s.subrange(i, i + dec_of(n as nat).len()) == dec_of(n as nat),
        i + dec_of(n as nat).len() == s.len() || !is_dec_digit_char(s[i + dec_of(n as nat).len()]),
    ensures
        parse_dec(s, i) == Some((n, i + dec_of(n as nat).len())),
{
    let d = dec_of(n as nat);
    lemma_dec_of_chars(n as nat);
    lemma_dec_of_len_u64(n);
    lemma_dec_val_of_dec_of(n as nat);
    lemma_scan_digits_of_digits(s, i, d);
    assert(s.subrange(i, i + d.len()) == d);
    assert(s.subrange(i, i + d.len())[0] == d[0]);
    if s[i] == '0' {
        assert(d[0] == '0');
        assert(n == 0);
        assert(d.len() == 1);
    }
    assert(dec_val(s.subrange(i, scan_digits(s, i))) == n);
}

/// The quoted-string parser reads back exactly an escaped string followed by
/// its closing quote.
proof fn lemma_parse_jstr_complete(s: Seq<char>, i: int, m: Seq<char>)
    requires
        0 <= i,
        i + esc(m).len() + 1 <= s.len(),
        s.subrange(i, i + esc(m).len()) == esc(m),
        s[i + esc(m).len()] == '"',
    ensures
        parse_jstr(s, i) == Some((m, i + esc(m).len() + 1)),
    decreases m.len(),
{
    if m.len() == 0 {
        assert(esc(m).len() == 0);
        assert(s[i] == '"');
    } else {
        let c = m[0];
        let rest = m.drop_first();
        assert(esc(m) == esc_char(c) + esc(rest));
        lemma_split(s, i, esc_char(c), esc(rest));
        let i2 = i + esc_char(c).len();
        assert(s[i + esc(m).len()] == s[i2 + esc(rest).len()]);
        lemma_parse_jstr_complete(s, i2, rest);
        if c == '"' {
            lemma_match_at_index(s, i, esc_char(c), 0);
            lemma_match_at_index(s, i, esc_char(c), 1);
            assert(s[i] == '\\' && s[i + 1] == '"');
            assert(seq![s[i + 1]] + rest =~= m);
        } else if c == '\\' {
            lemma_match_at_index(s, i, esc_char(c), 0);
            lemma_match_at_index(s, i, esc_char(c), 1);
            assert(s[i] == '\\' && s[i + 1] == '\\');
            assert(seq![s[i + 1]] + rest =~= m);
        } else if (c as u32) < 32 {
            lemma_match_at_index(s, i, esc_char(c), 0);
            lemma_match_at_index(s, i, esc_char(c), 1);
            lemma_match_at_index(s, i, esc_char(c), 2);
            lemma_match_at_index(s, i, esc_char(c), 3);
            lemma_match_at_index(s, i, esc_char(c), 4);
            lemma_match_at_index(s, i, esc_char(c), 5);
            lemma_hex_digit_val(((c as u32) / 16) as nat);
            lemma_hex_digit_val(((c as u32) % 16) as nat);
            assert(s[i] == '\\' && s[i + 1] == 'u' && s[i + 2] == '0' && s[i + 3] == '0');
            assert(hex_digit_val(s[i + 4]) == (c as u32) / 16);
            assert(hex_digit_val(s[i + 5]) == (c as u32) % 16);
            assert(hex_digit_val(s[i + 4]) * 16 + hex_digit_val(s[i + 5]) == c as u32);
            vstd::utf8::char_u32_cast(c, c as u32);
            assert((((hex_digit_val(s[i + 4]) * 16 + hex_digit_val(s[i + 5])) as u32) as char)
                == c);
            assert(seq![(((hex_digit_val(s[i + 4]) * 16 + hex_digit_val(s[i + 5])) as u32) as char)]
                + rest =~= m);
        } else {
            lemma_match_at_index(s, i, esc_char(c), 0);
            assert(s[i] == c);
            assert(seq![s[i]] + rest =~= m);
        }
    }
}

/// The id parser reads back exactly an encoded 256-bit id.
proof fn lemma_parse_hex64_complete(s: Seq<char>, i: int, id: Seq<u8>)
    requires
        0 <= i,
        id.len() == 32,
        i + 64 <= s.len(),
        s.subrange(i, i + 64) == hex_of(id),
    ensures
        parse_hex64(s, i) == Some((id, i + 64)),
{
    assert forall|k: int| 0 <= k < 64 implies is_hex_digit_char(#[trigger] s[i + k]) by {
        assert(s.subrange(i, i + 64)[k] == hex_of(id)[k]);
        if k % 2 == 0 {
            lemma_hex_digit_val((id[k / 2] / 16) as nat);
        } else {
            lemma_hex_digit_val((id[k / 2] % 16) as nat);
        }
    }
    assert(hex64_at(s, i));
    let got = parse_hex64(s, i)->Some_0.0;
    assert forall|k: int| 0 <= k < 32 implies got[k] == id[k] by {
        assert(s.subrange(i, i + 64)[2 * k] == hex_of(id)[2 * k]);
        assert(s.subrange(i, i + 64)[2 * k + 1] == hex_of(id)[2 * k + 1]);
        assert(s[i + 2 * k] == hex_digit((id[k] / 16) as nat));
        assert(s[i + 2 * k + 1] == hex_digit((id[k] % 16) as nat));
        lemma_hex_digit_val((id[k] / 16) as nat);
        lemma_hex_digit_val((id[k] % 16) as nat);
    }
    assert(got =~= id);
}


/// The epoch-ending leaf parser reads back exactly an encoded leaf object.
proof fn lemma_parse_epoch_leaf_complete(s: Seq<char>, i: int, e: EpochEndingBackupMetaView)
    requires
        0 <= i,
        i + enc_epoch_leaf(e).len() <= s.len(),
        s.subrange(i, i + enc_epoch_leaf(e).len()) == enc_epoch_leaf(e),
    ensures
        parse_epoch_leaf(s, i) == Some((e, i + enc_epoch_leaf(e).len())),
{
    reveal_strlit("{\"first_epoch\":");
    reveal_strlit(",\"last_epoch\":");
    reveal_strlit(",\"first_version\":");
    reveal_strlit(",\"last_version\":");
    reveal_strlit(",\"manifest\":\"");
    reveal_strlit("\"}");
    reveal_strlit("}");
    let l1 = "{\"first_epoch\":"@;
    let l2 = ",\"last_epoch\":"@;
    let l3 = ",\"first_version\":"@;
    let l4 = ",\"last_version\":"@;
    let l5 = ",\"manifest\":\""@;
    let l6 = "\"}"@;
    let d1 = dec_of(e.first_epoch as nat);
    let d2 = dec_of(e.last_epoch as nat);
    let d3 = dec_of(e.first_version as nat);
    let d4 = dec_of(e.last_version as nat);
    let em = esc(e.manifest);
    let r1 = d1 + (l2 + (d2 + (l3 + (d3 + (l4 + (d4 + (l5 + (em + l6))))))));
    let r2 = l2 + (d2 + (l3 + (d3 + (l4 + (d4 + (l5 + (em + l6)))))));
    let r3 = d2 + (l3 + (d3 + (l4 + (d4 + (l5 + (em + l6))))));
    let r4 = l3 + (d3 + (l4 + (d4 + (l5 + (em + l6)))));
    let r5 = d3 + (l4 + (d4 + (l5 + (em + l6))));
    let r6 = l4 + (d4 + (l5 + (em + l6)));
    let r7 = d4 + (l5 + (em + l6));
    let r8 = l5 + (em + l6);
    let r9 = em + l6;
    lemma_split(s, i, l1, r1);
    let p1 = i + l1.len();
    lemma_split(s, p1, d1, r2);
    let p2 = p1 + d1.len();
    lemma_split(s, p2, l2, r3);
    lemma_match_at_index(s, p2, l2, 0);
    lemma_parse_dec_complete(s, p1, e.first_epoch);
    let p3 = p2 + l2.len();
    lemma_split(s, p3, d2, r4);
    let p4 = p3 + d2.len();
    lemma_split(s, p4, l3, r5);
    lemma_match_at_index(s, p4, l3, 0);
    lemma_parse_dec_complete(s, p3, e.last_epoch);
    let p5 = p4 + l3.len();
    lemma_split(s, p5, d3, r6);
    let p6 = p5 + d3.len();
    lemma_split(s, p6, l4, r7);
    lemma_match_at_index(s, p6, l4, 0);
    lemma_parse_dec_complete(s, p5, e.first_version);
    let p7 = p6 + l4.len();
    lemma_split(s, p7, d4, r8);
    let p8 = p7 + d4.len();
    lemma_split(s, p8, l5, r9);
    lemma_match_at_index(s, p8, l5, 0);
    lemma_parse_dec_complete(s, p7, e.last_version);
    let p9 = p8 + l5.len();
    lemma_split(s, p9, em, l6);
    let p10 = p9 + em.len();
    lemma_match_at_index(s, p10, l6, 0);
    lemma_match_at_index(s, p10, l6, 1);
    lemma_parse_jstr_complete(s, p9, e.manifest);
    assert(s.subrange(p10 + 1, p10 + 2) =~= "}"@) by {
        assert(s.subrange(p10 + 1, p10 + 2)[0] == s[p10 + 1]);
    }
    assert(match_at(s, p10 + 1, "}"@));
    assert(p10 + 2 == i + enc_epoch_leaf(e).len());
    let got = parse_epoch_leaf(s, i)->Some_0.0;
    assert(got =~= e);
}

/// Two adjacent matched literals match as one.
proof fn lemma_join(s: Seq<char>, i: int, a: Seq<char>, b: Seq<char>)
    requires
        match_at(s, i, a),
        match_at(s, i + a.len(), b),
    ensures
        match_at(s, i, a + b),
{
    assert forall|k: int| 0 <= k < (a + b).len() implies s.subrange(i, i + (a + b).len())[k] == (a
        + b)[k] by {
        if k < a.len() {
            assert(s.subrange(i, i + a.len())[k] == a[k]);
            assert(s.subrange(i, i + (a + b).len())[k] == s[i + k]);
        } else {
            assert(s.subrange(i + a.len(), i + a.len() + b.len())[k - a.len()] == b[k - a.len()]);
            assert(s.subrange(i, i + (a + b).len())[k] == s[i + k]);
        }
    }
    assert(s.subrange(i, i + (a + b).len()) =~= a + b);
}

/// A literal does not match where one of its characters differs.
proof fn lemma_not_match_at(s: Seq<char>, i: int, lit: Seq<char>, k: int)
    requires
        0 <= i,
        0 <= k < lit.len(),
        i + k < s.len(),
        s[i + k] != lit[k],
    ensures
        !match_at(s, i, lit),
{
    if match_at(s, i, lit) {
        assert(s.subrange(i, i + lit.len())[k] == lit[k]);
    }
}

/// The snapshot leaf parser reads back exactly an encoded leaf object.
proof fn lemma_parse_snapshot_leaf_complete(s: Seq<char>, i: int, e: StateSnapshotBackupMetaView)
    requires
        0 <= i,
        i + enc_snapshot_leaf(e).len() <= s.len(),
        s.subrange(i, i + enc_snapshot_leaf(e).len()) == enc_snapshot_leaf(e),
    ensures
        parse_snapshot_leaf(s, i) == Some((e, i + enc_snapshot_leaf(e).len())),
{
    reveal_strlit("{\"epoch\":");
    reveal_strlit(",\"version\":");
    reveal_strlit(",\"manifest\":\"");
    reveal_strlit("\"}");
    reveal_strlit("}");
    let l1 = "{\"epoch\":"@;
    let l2 = ",\"version\":"@;
    let l5 = ",\"manifest\":\""@;
    let l6 = "\"}"@;
    let d1 = dec_of(e.epoch as nat);
    let d2 = dec_of(e.version as nat);
    let em = esc(e.manifest);
    let r1 = d1 + (l2 + (d2 + (l5 + (em + l6))));
    let r2 = l2 + (d2 + (l5 + (em + l6)));
    let r3 = d2 + (l5 + (em + l6));
    let r4 = l5 + (em + l6);
    let r5 = em + l6;
    lemma_split(s, i, l1, r1);
    let p1 = i + l1.len();
    lemma_split(s, p1, d1, r2);
    let p2 = p1 + d1.len();
    lemma_split(s, p2, l2, r3);
    lemma_match_at_index(s, p2, l2, 0);
    lemma_parse_dec_complete(s, p1, e.epoch);
    let p3 = p2 + l2.len();
    lemma_split(s, p3, d2, r4);
    let p4 = p3 + d2.len();
    lemma_split(s, p4, l5, r5);
    lemma_match_at_index(s, p4, l5, 0);
    lemma_parse_dec_complete(s, p3, e.version);
    let p5 = p4 + l5.len();
    lemma_split(s, p5, em, l6);
    let p6 = p5 + em.len();
    lemma_match_at_index(s, p6, l6, 0);
    lemma_match_at_index(s, p6, l6, 1);
    lemma_parse_jstr_complete(s, p5, e.manifest);
    assert(s.subrange(p6 + 1, p6 + 2) =~= "}"@) by {
        assert(s.subrange(p6 + 1, p6 + 2)[0] == s[p6 + 1]);
    }
    assert(match_at(s, p6 + 1, "}"@));
    assert(p6 + 2 == i + enc_snapshot_leaf(e).len());
    let got = parse_snapshot_leaf(s, i)->Some_0.0;
    assert(got =~= e);
}

/// The transaction leaf parser reads back exactly an encoded leaf object.
proof fn lemma_parse_transaction_leaf_complete(s: Seq<char>, i: int, e: TransactionBackupMetaView)
    requires
        0 <= i,
        i + enc_transaction_leaf(e).len() <= s.len(),
        s.subrange(i, i + enc_transaction_leaf(e).len()) == enc_transaction_leaf(e),
    ensures
        parse_transaction_leaf(s, i) == Some((e, i + enc_transaction_leaf(e).len())),
{
    reveal_strlit("{\"first_version\":");
    reveal_strlit(",\"last_version\":");
    reveal_strlit(",\"manifest\":\"");
    reveal_strlit("\"}");
    reveal_strlit("}");
    let l1 = "{\"first_version\":"@;
    let l2 = ",\"last_version\":"@;
    let l5 = ",\"manifest\":\""@;
    let l6 = "\"}"@;
    let d1 = dec_of(e.first_version as nat);
    let d2 = dec_of(e.last_version as nat);
    let em = esc(e.manifest);
    let r1 = d1 + (l2 + (d2 + (l5 + (em + l6))));
    let r2 = l2 + (d2 + (l5 + (em + l6)));
    let r3 = d2 + (l5 + (em + l6));
    let r4 = l5 + (em + l6);
    let r5 = em + l6;
    lemma_split(s, i, l1, r1);
    let p1 = i + l1.len();
    lemma_split(s, p1, d1, r2);
    let p2 = p1 + d1.len();
    lemma_split(s, p2, l2, r3);
    lemma_match_at_index(s, p2, l2, 0);
    lemma_parse_dec_complete(s, p1, e.first_version);
    let p3 = p2 + l2.len();
    lemma_split(s, p3, d2, r4);
    let p4 = p3 + d2.len();
    lemma_split(s, p4, l5, r5);
    lemma_match_at_index(s, p4, l5, 0);
    lemma_parse_dec_complete(s, p3, e.last_version);
    let p5 = p4 + l5.len();
    lemma_split(s, p5, em, l6);
    let p6 = p5 + em.len();
    lemma_match_at_index(s, p6, l6, 0);
    lemma_match_at_index(s, p6, l6, 1);
    lemma_parse_jstr_complete(s, p5, e.manifest);
    assert(s.subrange(p6 + 1, p6 + 2) =~= "}"@) by {
        assert(s.subrange(p6 + 1, p6 + 2)[0] == s[p6 + 1]);
    }
    assert(match_at(s, p6 + 1, "}"@));
    assert(p6 + 2 == i + enc_transaction_leaf(e).len());
    let got = parse_transaction_leaf(s, i)->Some_0.0;
    assert(got =~= e);
}


/// The epoch list parser reads back exactly an encoded non-empty list
/// followed by a character other than a comma.
proof fn lemma_parse_epoch_list_complete(s: Seq<char>, i: int, v: Seq<EpochEndingBackupMetaView>)
    requires
        0 <= i,
        v.len() >= 1,
        i + enc_epoch_list(v).len() <= s.len(),
        s.subrange(i, i + enc_epoch_list(v).len()) == enc_epoch_list(v),
        i + enc_epoch_list(v).len() == s.len() || s[i + enc_epoch_list(v).len()] != ',',
    ensures
        parse_epoch_list(s, i) == Some((v, i + enc_epoch_list(v).len())),
    decreases v.len(),
{
    reveal_strlit("{\"first_epoch\":");
    reveal_strlit(",");
    let ll = enc_epoch_list(v).len();
    if v.len() == 1 {
        assert(enc_epoch_list(v) == enc_epoch_leaf(v[0]));
        lemma_parse_epoch_leaf_complete(s, i, v[0]);
        assert(enc_epoch_leaf(v[0]).len() >= 1);
        assert(seq![v[0]] =~= v);
    } else {
        let head = enc_epoch_leaf(v[0]);
        let tail = enc_epoch_list(v.drop_first());
        assert(enc_epoch_list(v) == head + (","@ + tail));
        lemma_split(s, i, head, ","@ + tail);
        lemma_parse_epoch_leaf_complete(s, i, v[0]);
        let p = i + head.len();
        lemma_split(s, p, ","@, tail);
        lemma_match_at_index(s, p, ","@, 0);
        assert(s[p] == ',');
        assert(head.len() >= 1);
        lemma_parse_epoch_list_complete(s, p + 1, v.drop_first());
        assert(seq![v[0]] + v.drop_first() =~= v);
    }
}

/// The snapshot list parser reads back exactly an encoded non-empty list
/// followed by a character other than a comma.
proof fn lemma_parse_snapshot_list_complete(s: Seq<char>, i: int, v: Seq<StateSnapshotBackupMetaView>)
    requires
        0 <= i,
        v.len() >= 1,
        i + enc_snapshot_list(v).len() <= s.len(),
        s.subrange(i, i + enc_snapshot_list(v).len()) == enc_snapshot_list(v),
        i + enc_snapshot_list(v).len() == s.len() || s[i + enc_snapshot_list(v).len()] != ',',
    ensures
        parse_snapshot_list(s, i) == Some((v, i + enc_snapshot_list(v).len())),
    decreases v.len(),
{
    reveal_strlit("{\"epoch\":");
    reveal_strlit(",");
    let ll = enc_snapshot_list(v).len();
    if v.len() == 1 {
        assert(enc_snapshot_list(v) == enc_snapshot_leaf(v[0]));
        lemma_parse_snapshot_leaf_complete(s, i, v[0]);
        assert(enc_snapshot_leaf(v[0]).len() >= 1);
        assert(seq![v[0]] =~= v);
    } else {
        let head = enc_snapshot_leaf(v[0]);
        let tail = enc_snapshot_list(v.drop_first());
        assert(enc_snapshot_list(v) == head + (","@ + tail));
        lemma_split(s, i, head, ","@ + tail);
        lemma_parse_snapshot_leaf_complete(s, i, v[0]);
        let p = i + head.len();
        lemma_split(s, p, ","@, tail);
        lemma_match_at_index(s, p, ","@, 0);
        assert(s[p] == ',');
        assert(head.len() >= 1);
        lemma_parse_snapshot_list_complete(s, p + 1, v.drop_first());
        assert(seq![v[0]] + v.drop_first() =~= v);
    }
}

/// The transaction list parser reads back exactly an encoded non-empty list
/// followed by a character other than a comma.
proof fn lemma_parse_transaction_list_complete(s: Seq<char>, i: int, v: Seq<TransactionBackupMetaView>)
    requires
        0 <= i,
        v.len() >= 1,
        i + enc_transaction_list(v).len() <= s.len(),
        s.subrange(i, i + enc_transaction_list(v).len()) == enc_transaction_list(v),
        i + enc_transaction_list(v).len() == s.len() || s[i + enc_transaction_list(v).len()] != ',',
    ensures
        parse_transaction_list(s, i) == Some((v, i + enc_transaction_list(v).len())),
    decreases v.len(),
{
    reveal_strlit("{\"first_version\":");
    reveal_strlit(",");
    let ll = enc_transaction_list(v).len();
    if v.len() == 1 {
        assert(enc_transaction_list(v) == enc_transaction_leaf(v[0]));
        lemma_parse_transaction_leaf_complete(s, i, v[0]);
        assert(enc_transaction_leaf(v[0]).len() >= 1);
        assert(seq![v[0]] =~= v);
    } else {
        let head = enc_transaction_leaf(v[0]);
        let tail = enc_transaction_list(v.drop_first());
        assert(enc_transaction_list(v) == head + (","@ + tail));
        lemma_split(s, i, head, ","@ + tail);
        lemma_parse_transaction_leaf_complete(s, i, v[0]);
        let p = i + head.len();
        lemma_split(s, p, ","@, tail);
        lemma_match_at_index(s, p, ","@, 0);
        assert(s[p] == ',');
        assert(head.len() >= 1);
        lemma_parse_transaction_list_complete(s, p + 1, v.drop_first());
        assert(seq![v[0]] + v.drop_first() =~= v);
    }
}


/// The epoch range parser reads back exactly an encoded range body that
/// fills the rest of the line.
#[verifier::rlimit(100)]
#[verifier::spinoff_prover]
proof fn lemma_parse_epoch_range_complete(s: Seq<char>, i: int, r: EpochEndingBackupMetaRangeView)
    requires
        0 <= i,
        i + enc_epoch_range_obj(r).len() == s.len(),
        s.subrange(i, s.len() as int) == enc_epoch_range_obj(r),
    ensures
        parse_epoch_range(s, i + "{\"first_epoch\":"@.len()) == Some(
            MetadataView::EpochEndingBackupRange(r),
        ),
        match_at(s, i, "{\"first_epoch\":"@),
{
    reveal_strlit("{\"first_epoch\":");
    reveal_strlit(",\"last_epoch\":");
    reveal_strlit(",\"first_version\":");
    reveal_strlit(",\"last_version\":");
    reveal_strlit(",\"backup_metas\":[");
    reveal_strlit("]}}");
    reveal_strlit("{\"first_epoch\":");
    let l1 = "{\"first_epoch\":"@;
    let l2 = ",\"last_epoch\":"@;
    let l3 = ",\"first_version\":"@;
    let l4 = ",\"last_version\":"@;
    let l5 = ",\"backup_metas\":["@;
    let l6 = "]}}"@;
    let d1 = dec_of(r.first_epoch as nat);
    let d2 = dec_of(r.last_epoch as nat);
    let d3 = dec_of(r.first_version as nat);
    let d4 = dec_of(r.last_version as nat);
    let w = enc_epoch_list(r.backup_metas);
    let r1 = d1 + (l2 + (d2 + (l3 + (d3 + (l4 + (d4 + (l5 + (w + l6))))))));
    let r2 = l2 + (d2 + (l3 + (d3 + (l4 + (d4 + (l5 + (w + l6)))))));
    let r3 = d2 + (l3 + (d3 + (l4 + (d4 + (l5 + (w + l6))))));
    let r4 = l3 + (d3 + (l4 + (d4 + (l5 + (w + l6)))));
    let r5 = d3 + (l4 + (d4 + (l5 + (w + l6))));
    let r6 = l4 + (d4 + (l5 + (w + l6)));
    let r7 = d4 + (l5 + (w + l6));
    let r8 = l5 + (w + l6);
    let r9 = w + l6;
    lemma_split(s, i, l1, r1);
    let p1 = i + l1.len();
    lemma_split(s, p1, d1, r2);
    let p2 = p1 + d1.len();
    lemma_split(s, p2, l2, r3);
    lemma_match_at_index(s, p2, l2, 0);
    lemma_parse_dec_complete(s, p1, r.first_epoch);
    let p3 = p2 + l2.len();
    lemma_split(s, p3, d2, r4);
    let p4 = p3 + d2.len();
    lemma_split(s, p4, l3, r5);
    lemma_match_at_index(s, p4, l3, 0);
    lemma_parse_dec_complete(s, p3, r.last_epoch);
    let p5 = p4 + l3.len();
    lemma_split(s, p5, d3, r6);
    let p6 = p5 + d3.len();
    lemma_split(s, p6, l4, r7);
    lemma_match_at_index(s, p6, l4, 0);
    lemma_parse_dec_complete(s, p5, r.first_version);
    let p7 = p6 + l4.len();
    lemma_split(s, p7, d4, r8);
    let p8 = p7 + d4.len();
    lemma_split(s, p8, l5, r9);
    lemma_match_at_index(s, p8, l5, 0);
    lemma_parse_dec_complete(s, p7, r.last_version);
    let p9 = p8 + l5.len();
    lemma_split(s, p9, w, l6);
    let q = p9 + w.len();
    lemma_match_at_index(s, q, l6, 0);
    if r.backup_metas.len() == 0 {
        assert(w.len() == 0);
        assert(q == p9);
        assert(match_at(s, p9, l6));
        let got = parse_epoch_range(s, i + l1.len())->Some_0;
        assert(got =~= MetadataView::EpochEndingBackupRange(r));
    } else {
        assert(w == enc_epoch_leaf(r.backup_metas[0]) + (","@ + enc_epoch_list(
            r.backup_metas.drop_first(),
        )) || w == enc_epoch_leaf(r.backup_metas[0]));
        assert(w[0] == enc_epoch_leaf(r.backup_metas[0])[0]);
        assert(s[p9] == w[0]) by {
            assert(s.subrange(p9, p9 + w.len())[0] == w[0]);
        }
        assert(s[p9] == '{');
        lemma_not_match_at(s, p9, l6, 0);
        lemma_parse_epoch_list_complete(s, p9, r.backup_metas);
        assert(match_at(s, q, l6));
        let got = parse_epoch_range(s, i + l1.len())->Some_0;
        assert(got =~= MetadataView::EpochEndingBackupRange(r));
    }
}

/// The snapshot range parser reads back exactly an encoded range body that
/// fills the rest of the line.
#[verifier::rlimit(100)]
#[verifier::spinoff_prover]
proof fn lemma_parse_snapshot_range_complete(s: Seq<char>, i: int, r: StateSnapshotBackupMetaRangeView)
    requires
        0 <= i,
        i + enc_snapshot_range_obj(r).len() == s.len(),
        s.subrange(i, s.len() as int) == enc_snapshot_range_obj(r),
    ensures
        parse_snapshot_range(s, i + "{\"first_epoch\":"@.len()) == Some(
            MetadataView::StateSnapshotBackupRange(r),
        ),
        match_at(s, i, "{\"first_epoch\":"@),
{
    reveal_strlit("{\"first_epoch\":");
    reveal_strlit(",\"last_epoch\":");
    reveal_strlit(",\"first_version\":");
    reveal_strlit(",\"last_version\":");
    reveal_strlit(",\"backup_metas\":[");
    reveal_strlit("]}}");
    reveal_strlit("{\"epoch\":");
    let l1 = "{\"first_epoch\":"@;
    let l2 = ",\"last_epoch\":"@;
    let l3 = ",\"first_version\":"@;
    let l4 = ",\"last_version\":"@;
    let l5 = ",\"backup_metas\":["@;
    let l6 = "]}}"@;
    let d1 = dec_of(r.first_epoch as nat);
    let d2 = dec_of(r.last_epoch as nat);
    let d3 = dec_of(r.first_version as nat);
    let d4 = dec_of(r.last_version as nat);
    let w = enc_snapshot_list(r.backup_metas);
    let r1 = d1 + (l2 + (d2 + (l3 + (d3 + (l4 + (d4 + (l5 + (w + l6))))))));
    let r2 = l2 + (d2 + (l3 + (d3 + (l4 + (d4 + (l5 + (w + l6)))))));
    let r3 = d2 + (l3 + (d3 + (l4 + (d4 + (l5 + (w + l6))))));
    let r4 = l3 + (d3 + (l4 + (d4 + (l5 + (w + l6)))));
    let r5 = d3 + (l4 + (d4 + (l5 + (w + l6))));
    let r6 = l4 + (d4 + (l5 + (w + l6)));
    let r7 = d4 + (l5 + (w + l6));
    let r8 = l5 + (w + l6);
    let r9 = w + l6;
    lemma_split(s, i, l1, r1);
    let p1 = i + l1.len();
    lemma_split(s, p1, d1, r2);
    let p2 = p1 + d1.len();
    lemma_split(s, p2, l2, r3);
    lemma_match_at_index(s, p2, l2, 0);
    lemma_parse_dec_complete(s, p1, r.first_epoch);
    let p3 = p2 + l2.len();
    lemma_split(s, p3, d2, r4);
    let p4 = p3 + d2.len();
    lemma_split(s, p4, l3, r5);
    lemma_match_at_index(s, p4, l3, 0);
    lemma_parse_dec_complete(s, p3, r.last_epoch);
    let p5 = p4 + l3.len();
    lemma_split(s, p5, d3, r6);
    let p6 = p5 + d3.len();
    lemma_split(s, p6, l4, r7);
    lemma_match_at_index(s, p6, l4, 0);
    lemma_parse_dec_complete(s, p5, r.first_version);
    let p7 = p6 + l4.len();
    lemma_split(s, p7, d4, r8);
    let p8 = p7 + d4.len();
    lemma_split(s, p8, l5, r9);
    lemma_match_at_index(s, p8, l5, 0);
    lemma_parse_dec_complete(s, p7, r.last_version);
    let p9 = p8 + l5.len();
    lemma_split(s, p9, w, l6);
    let q = p9 + w.len();
    lemma_match_at_index(s, q, l6, 0);
    if r.backup_metas.len() == 0 {
        assert(w.len() == 0);
        assert(q == p9);
        assert(match_at(s, p9, l6));
        let got = parse_snapshot_range(s, i + l1.len())->Some_0;
        assert(got =~= MetadataView::StateSnapshotBackupRange(r));
    } else {
        assert(w == enc_snapshot_leaf(r.backup_metas[0]) + (","@ + enc_snapshot_list(
            r.backup_metas.drop_first(),
        )) || w == enc_snapshot_leaf(r.backup_metas[0]));
        assert(w[0] == enc_snapshot_leaf(r.backup_metas[0])[0]);
        assert(s[p9] == w[0]) by {
            assert(s.subrange(p9, p9 + w.len())[0] == w[0]);
        }
        assert(s[p9] == '{');
        lemma_not_match_at(s, p9, l6, 0);
        lemma_parse_snapshot_list_complete(s, p9, r.backup_metas);
        assert(match_at(s, q, l6));
        let got = parse_snapshot_range(s, i + l1.len())->Some_0;
        assert(got =~= MetadataView::StateSnapshotBackupRange(r));
    }
}

/// The transaction range parser reads back exactly an encoded range body that
/// fills the rest of the line.
#[verifier::rlimit(100)]
#[verifier::spinoff_prover]
proof fn lemma_parse_transaction_range_complete(s: Seq<char>, i: int, r: TransactionBackupMetaRangeView)
    requires
        0 <= i,
        i + enc_transaction_range_obj(r).len() == s.len(),
        s.subrange(i, s.len() as int) == enc_transaction_range_obj(r),
    ensures
        parse_transaction_range(s, i + "{\"first_version\":"@.len()) == Some(
            MetadataView::TransactionBackupRange(r),
        ),
        match_at(s, i, "{\"first_version\":"@),
{
    reveal_strlit("{\"first_version\":");
    reveal_strlit(",\"last_version\":");
    reveal_strlit(",\"backup_metas\":[");
    reveal_strlit("]}}");
    let l1 = "{\"first_version\":"@;
    let l2 = ",\"last_version\":"@;
    let l5 = ",\"backup_metas\":["@;
    let l6 = "]}}"@;
    let d1 = dec_of(r.first_version as nat);
    let d2 = dec_of(r.last_version as nat);
    let w = enc_transaction_list(r.backup_metas);
    let r1 = d1 + (l2 + (d2 + (l5 + (w + l6))));
    let r2 = l2 + (d2 + (l5 + (w + l6)));
    let r3 = d2 + (l5 + (w + l6));
    let r4 = l5 + (w + l6);
    let r5 = w + l6;
    lemma_split(s, i, l1, r1);
    let p1 = i + l1.len();
    lemma_split(s, p1, d1, r2);
    let p2 = p1 + d1.len();
    lemma_split(s, p2, l2, r3);
    lemma_match_at_index(s, p2, l2, 0);
    lemma_parse_dec_complete(s, p1, r.first_version);
    let p3 = p2 + l2.len();
    lemma_split(s, p3, d2, r4);
    let p4 = p3 + d2.len();
    lemma_split(s, p4, l5, r5);
    lemma_match_at_index(s, p4, l5, 0);
    lemma_parse_dec_complete(s, p3, r.last_version);
    let p5 = p4 + l5.len();
    lemma_split(s, p5, w, l6);
    let q = p5 + w.len();
    lemma_match_at_index(s, q, l6, 0);
    if r.backup_metas.len() == 0 {
        assert(w.len() == 0);
        assert(match_at(s, p5, l6));
        let got = parse_transaction_range(s, i + l1.len())->Some_0;
        assert(got =~= MetadataView::TransactionBackupRange(r));
    } else {
        assert(w == enc_transaction_leaf(r.backup_metas[0]) + (","@ + enc_transaction_list(
            r.backup_metas.drop_first(),
        )) || w == enc_transaction_leaf(r.backup_metas[0]));
        assert(w[0] == enc_transaction_leaf(r.backup_metas[0])[0]);
        assert(s[p5] == w[0]) by {
            assert(s.subrange(p5, p5 + w.len())[0] == w[0]);
        }
        assert(s[p5] == '{');
        lemma_not_match_at(s, p5, l6, 0);
        lemma_parse_transaction_list_complete(s, p5, r.backup_metas);
        assert(match_at(s, q, l6));
        let got = parse_transaction_range(s, i + l1.len())->Some_0;
        assert(got =~= MetadataView::TransactionBackupRange(r));
    }
}


#[verifier::rlimit(100)]
#[verifier::spinoff_prover]
proof fn lemma_decode_encode_epoch_leaf(e: EpochEndingBackupMetaView)
    ensures
        spec_decode(spec_encode(MetadataView::EpochEndingBackup(e))) == Some(
            MetadataView::EpochEndingBackup(e),
        ),
{
    reveal_strlit("{\"EpochEndingBackup\":");
    reveal_strlit("{\"EpochEndingBackupRange\":");
    reveal_strlit("{\"StateSnapshotBackup\":");
    reveal_strlit("{\"StateSnapshotBackupRange\":");
    reveal_strlit("{\"TransactionBackup\":");
    reveal_strlit("{\"TransactionBackupRange\":");
    reveal_strlit("{\"Identity\":{\"id\":\"");
    reveal_strlit("{\"EpochEndingBackupRange\":{\"first_epoch\":");
    reveal_strlit("{\"StateSnapshotBackupRange\":{\"first_epoch\":");
    reveal_strlit("{\"TransactionBackupRange\":{\"first_version\":");
    reveal_strlit("{\"first_epoch\":");
    reveal_strlit("{\"first_version\":");
    reveal_strlit("}");
    reveal_strlit("\"}}");

    let m = MetadataView::EpochEndingBackup(e);
    let s = spec_encode(m);
    assert(s.subrange(0, s.len() as int) =~= s);
    let ta = "{\"EpochEndingBackup\":"@;
    let mar = "{\"EpochEndingBackupRange\":{\"first_epoch\":"@;
    let ts = "{\"StateSnapshotBackup\":"@;
    let msr = "{\"StateSnapshotBackupRange\":{\"first_epoch\":"@;
    let tt = "{\"TransactionBackup\":"@;
    let mtr = "{\"TransactionBackupRange\":{\"first_version\":"@;
    let ti = "{\"Identity\":{\"id\":\""@;

    lemma_split(s, 0, ta, enc_epoch_leaf(e) + "}"@);
    lemma_split(s, ta.len() as int, enc_epoch_leaf(e), "}"@);
    lemma_parse_epoch_leaf_complete(s, ta.len() as int, e);
}

#[verifier::rlimit(100)]
#[verifier::spinoff_prover]
proof fn lemma_epoch_range_entry(r: EpochEndingBackupMetaRangeView)
    ensures
        match_at(spec_encode(MetadataView::EpochEndingBackupRange(r)), 0, "{\"EpochEndingBackupRange\":{\"first_epoch\":"@),
        parse_epoch_range(
            spec_encode(MetadataView::EpochEndingBackupRange(r)),
            "{\"EpochEndingBackupRange\":{\"first_epoch\":"@.len() as int,
        ) == Some(MetadataView::EpochEndingBackupRange(r)),
{
    reveal_strlit("{\"EpochEndingBackupRange\":");
    reveal_strlit("{\"first_epoch\":");
    reveal_strlit("{\"EpochEndingBackupRange\":{\"first_epoch\":");
    let m = MetadataView::EpochEndingBackupRange(r);
    let s = spec_encode(m);
    let tag = "{\"EpochEndingBackupRange\":"@;
    let obj = enc_epoch_range_obj(r);
    assert(s.subrange(0, "{\"EpochEndingBackupRange\":{\"first_epoch\":"@.len() as int) =~= "{\"EpochEndingBackupRange\":{\"first_epoch\":"@);
    assert(s.subrange(tag.len() as int, s.len() as int) =~= obj);
    lemma_parse_epoch_range_complete(s, tag.len() as int, r);

}

#[verifier::rlimit(100)]
#[verifier::spinoff_prover]
proof fn lemma_decode_encode_epoch_range(r: EpochEndingBackupMetaRangeView)
    ensures
        spec_decode(spec_encode(MetadataView::EpochEndingBackupRange(r))) == Some(
            MetadataView::EpochEndingBackupRange(r),
        ),
{
    reveal_strlit("{\"EpochEndingBackup\":");
    reveal_strlit("{\"EpochEndingBackupRange\":{\"first_epoch\":");
    let m = MetadataView::EpochEndingBackupRange(r);
    let s = spec_encode(m);
    let ta = "{\"EpochEndingBackup\":"@;
    let mar = "{\"EpochEndingBackupRange\":{\"first_epoch\":"@;
    lemma_epoch_range_entry(r);
    lemma_match_at_index(s, 0, mar, 19);
    lemma_not_match_at(s, 0, ta, 19);
}


#[verifier::rlimit(100)]
#[verifier::spinoff_prover]
proof fn lemma_decode_encode_snapshot_leaf(e: StateSnapshotBackupMetaView)
    ensures
        spec_decode(spec_encode(MetadataView::StateSnapshotBackup(e))) == Some(
            MetadataView::StateSnapshotBackup(e),
        ),
{
    reveal_strlit("{\"EpochEndingBackup\":");
    reveal_strlit("{\"EpochEndingBackupRange\":");
    reveal_strlit("{\"StateSnapshotBackup\":");
    reveal_strlit("{\"StateSnapshotBackupRange\":");
    reveal_strlit("{\"TransactionBackup\":");
    reveal_strlit("{\"TransactionBackupRange\":");
    reveal_strlit("{\"Identity\":{\"id\":\"");
    reveal_strlit("{\"EpochEndingBackupRange\":{\"first_epoch\":");
    reveal_strlit("{\"StateSnapshotBackupRange\":{\"first_epoch\":");
    reveal_strlit("{\"TransactionBackupRange\":{\"first_version\":");
    reveal_strlit("{\"first_epoch\":");
    reveal_strlit("{\"first_version\":");
    reveal_strlit("}");
    reveal_strlit("\"}}");

    let m = MetadataView::StateSnapshotBackup(e);
    let s = spec_encode(m);
    assert(s.subrange(0, s.len() as int) =~= s);
    let ta = "{\"EpochEndingBackup\":"@;
    let mar = "{\"EpochEndingBackupRange\":{\"first_epoch\":"@;
    let ts = "{\"StateSnapshotBackup\":"@;
    let msr = "{\"StateSnapshotBackupRange\":{\"first_epoch\":"@;
    let tt = "{\"TransactionBackup\":"@;
    let mtr = "{\"TransactionBackupRange\":{\"first_version\":"@;
    let ti = "{\"Identity\":{\"id\":\""@;

    lemma_split(s, 0, ts, enc_snapshot_leaf(e) + "}"@);
    lemma_split(s, ts.len() as int, enc_snapshot_leaf(e), "}"@);
    lemma_parse_snapshot_leaf_complete(s, ts.len() as int, e);
    lemma_match_at_index(s, 0, ts, 2);
    lemma_not_match_at(s, 0, ta, 2);
    lemma_not_match_at(s, 0, mar, 2);
}

#[verifier::rlimit(100)]
#[verifier::spinoff_prover]
proof fn lemma_snapshot_range_entry(r: StateSnapshotBackupMetaRangeView)
    ensures
        match_at(spec_encode(MetadataView::StateSnapshotBackupRange(r)), 0, "{\"StateSnapshotBackupRange\":{\"first_epoch\":"@),
        parse_snapshot_range(
            spec_encode(MetadataView::StateSnapshotBackupRange(r)),
            "{\"StateSnapshotBackupRange\":{\"first_epoch\":"@.len() as int,
        ) == Some(MetadataView::StateSnapshotBackupRange(r)),
{
    reveal_strlit("{\"StateSnapshotBackupRange\":");
    reveal_strlit("{\"first_epoch\":");
    reveal_strlit("{\"StateSnapshotBackupRange\":{\"first_epoch\":");
    let m = MetadataView::StateSnapshotBackupRange(r);
    let s = spec_encode(m);
    let tag = "{\"StateSnapshotBackupRange\":"@;
    let obj = enc_snapshot_range_obj(r);
    assert(s.subrange(0, "{\"StateSnapshotBackupRange\":{\"first_epoch\":"@.len() as int) =~= "{\"StateSnapshotBackupRange\":{\"first_epoch\":"@);
    assert(s.subrange(tag.len() as int, s.len() as int) =~= obj);
    lemma_parse_snapshot_range_complete(s, tag.len() as int, r);

}

#[verifier::rlimit(100)]
#[verifier::spinoff_prover]
proof fn lemma_decode_encode_snapshot_range(r: StateSnapshotBackupMetaRangeView)
    ensures
        spec_decode(spec_encode(MetadataView::StateSnapshotBackupRange(r))) == Some(
            MetadataView::StateSnapshotBackupRange(r),
        ),
{
    reveal_strlit("{\"EpochEndingBackup\":");
    reveal_strlit("{\"EpochEndingBackupRange\":{\"first_epoch\":");
    reveal_strlit("{\"StateSnapshotBackup\":");
    reveal_strlit("{\"StateSnapshotBackupRange\":{\"first_epoch\":");
    let m = MetadataView::StateSnapshotBackupRange(r);
    let s = spec_encode(m);
    let ta = "{\"EpochEndingBackup\":"@;
    let mar = "{\"EpochEndingBackupRange\":{\"first_epoch\":"@;
    let ts = "{\"StateSnapshotBackup\":"@;
    let msr = "{\"StateSnapshotBackupRange\":{\"first_epoch\":"@;
    lemma_snapshot_range_entry(r);
    lemma_match_at_index(s, 0, msr, 2);
    lemma_match_at_index(s, 0, msr, 21);
    lemma_not_match_at(s, 0, ta, 2);
    lemma_not_match_at(s, 0, mar, 2);
    lemma_not_match_at(s, 0, ts, 21);
}


#[verifier::rlimit(100)]
#[verifier::spinoff_prover]
proof fn lemma_decode_encode_transaction_leaf(e: TransactionBackupMetaView)
    ensures
        spec_decode(spec_encode(MetadataView::TransactionBackup(e))) == Some(
            MetadataView::TransactionBackup(e),
        ),
{
    reveal_strlit("{\"EpochEndingBackup\":");
    reveal_strlit("{\"EpochEndingBackupRange\":");
    reveal_strlit("{\"StateSnapshotBackup\":");
    reveal_strlit("{\"StateSnapshotBackupRange\":");
    reveal_strlit("{\"TransactionBackup\":");
    reveal_strlit("{\"TransactionBackupRange\":");
    reveal_strlit("{\"Identity\":{\"id\":\"");
    reveal_strlit("{\"EpochEndingBackupRange\":{\"first_epoch\":");
    reveal_strlit("{\"StateSnapshotBackupRange\":{\"first_epoch\":");
    reveal_strlit("{\"TransactionBackupRange\":{\"first_version\":");
    reveal_strlit("{\"first_epoch\":");
    reveal_strlit("{\"first_version\":");
    reveal_strlit("}");
    reveal_strlit("\"}}");

    let m = MetadataView::TransactionBackup(e);
    let s = spec_encode(m);
    assert(s.subrange(0, s.len() as int) =~= s);
    let ta = "{\"EpochEndingBackup\":"@;
    let mar = "{\"EpochEndingBackupRange\":{\"first_epoch\":"@;
    let ts = "{\"StateSnapshotBackup\":"@;
    let msr = "{\"StateSnapshotBackupRange\":{\"first_epoch\":"@;
    let tt = "{\"TransactionBackup\":"@;
    let mtr = "{\"TransactionBackupRange\":{\"first_version\":"@;
    let ti = "{\"Identity\":{\"id\":\""@;

    lemma_split(s, 0, tt, enc_transaction_leaf(e) + "}"@);
    lemma_split(s, tt.len() as int, enc_transaction_leaf(e), "}"@);
    lemma_parse_transaction_leaf_complete(s, tt.len() as int, e);
    lemma_match_at_index(s, 0, tt, 2);
    lemma_not_match_at(s, 0, ta, 2);
    lemma_not_match_at(s, 0, mar, 2);
    lemma_not_match_at(s, 0, ts, 2);
    lemma_not_match_at(s, 0, msr, 2);
}

#[verifier::rlimit(100)]
#[verifier::spinoff_prover]
proof fn lemma_transaction_range_entry(r: TransactionBackupMetaRangeView)
    ensures
        match_at(spec_encode(MetadataView::TransactionBackupRange(r)), 0, "{\"TransactionBackupRange\":{\"first_version\":"@),
        parse_transaction_range(
            spec_encode(MetadataView::TransactionBackupRange(r)),
            "{\"TransactionBackupRange\":{\"first_version\":"@.len() as int,
        ) == Some(MetadataView::TransactionBackupRange(r)),
{
    reveal_strlit("{\"TransactionBackupRange\":");
    reveal_strlit("{\"first_version\":");
    reveal_strlit("{\"TransactionBackupRange\":{\"first_version\":");
    let m = MetadataView::TransactionBackupRange(r);
    let s = spec_encode(m);
    let tag = "{\"TransactionBackupRange\":"@;
    let obj = enc_transaction_range_obj(r);
    assert(s.subrange(0, "{\"TransactionBackupRange\":{\"first_version\":"@.len() as int) =~= "{\"TransactionBackupRange\":{\"first_version\":"@);
    assert(s.subrange(tag.len() as int, s.len() as int) =~= obj);
    lemma_parse_transaction_range_complete(s, tag.len() as int, r);

}

#[verifier::rlimit(100)]
#[verifier::spinoff_prover]
proof fn lemma_decode_encode_transaction_range(r: TransactionBackupMetaRangeView)
    ensures
        spec_decode(spec_encode(MetadataView::TransactionBackupRange(r))) == Some(
            MetadataView::TransactionBackupRange(r),
        ),
{
    reveal_strlit("{\"EpochEndingBackup\":");
    reveal_strlit("{\"EpochEndingBackupRange\":{\"first_epoch\":");
    reveal_strlit("{\"StateSnapshotBackup\":");
    reveal_strlit("{\"StateSnapshotBackupRange\":{\"first_epoch\":");
    reveal_strlit("{\"TransactionBackup\":");
    reveal_strlit("{\"TransactionBackupRange\":{\"first_version\":");
    let m = MetadataView::TransactionBackupRange(r);
    let s = spec_encode(m);
    let ta = "{\"EpochEndingBackup\":"@;
    let mar = "{\"EpochEndingBackupRange\":{\"first_epoch\":"@;
    let ts = "{\"StateSnapshotBackup\":"@;
    let msr = "{\"StateSnapshotBackupRange\":{\"first_epoch\":"@;
    let tt = "{\"TransactionBackup\":"@;
    let mtr = "{\"TransactionBackupRange\":{\"first_version\":"@;
    lemma_transaction_range_entry(r);
    lemma_match_at_index(s, 0, mtr, 2);
    lemma_match_at_index(s, 0, mtr, 19);
    lemma_not_match_at(s, 0, ta, 2);
    lemma_not_match_at(s, 0, mar, 2);
    lemma_not_match_at(s, 0, ts, 2);
    lemma_not_match_at(s, 0, msr, 2);
    lemma_not_match_at(s, 0, tt, 19);
}


#[verifier::rlimit(100)]
#[verifier::spinoff_prover]
proof fn lemma_decode_encode_identity(i: IdentityMetaView)
    requires
        i.id.len() == 32,
    ensures
        spec_decode(spec_encode(MetadataView::Identity(i))) == Some(
            MetadataView::Identity(i),
        ),
{
    reveal_strlit("{\"EpochEndingBackup\":");
    reveal_strlit("{\"EpochEndingBackupRange\":");
    reveal_strlit("{\"StateSnapshotBackup\":");
    reveal_strlit("{\"StateSnapshotBackupRange\":");
    reveal_strlit("{\"TransactionBackup\":");
    reveal_strlit("{\"TransactionBackupRange\":");
    reveal_strlit("{\"Identity\":{\"id\":\"");
    reveal_strlit("{\"EpochEndingBackupRange\":{\"first_epoch\":");
    reveal_strlit("{\"StateSnapshotBackupRange\":{\"first_epoch\":");
    reveal_strlit("{\"TransactionBackupRange\":{\"first_version\":");
    reveal_strlit("{\"first_epoch\":");
    reveal_strlit("{\"first_version\":");
    reveal_strlit("}");
    reveal_strlit("\"}}");

    let m = MetadataView::Identity(i);
    let s = spec_encode(m);
    assert(s.subrange(0, s.len() as int) =~= s);
    let ta = "{\"EpochEndingBackup\":"@;
    let mar = "{\"EpochEndingBackupRange\":{\"first_epoch\":"@;
    let ts = "{\"StateSnapshotBackup\":"@;
    let msr = "{\"StateSnapshotBackupRange\":{\"first_epoch\":"@;
    let tt = "{\"TransactionBackup\":"@;
    let mtr = "{\"TransactionBackupRange\":{\"first_version\":"@;
    let ti = "{\"Identity\":{\"id\":\""@;

    lemma_split(s, 0, ti, hex_of(i.id) + "\"}}"@);
    lemma_split(s, ti.len() as int, hex_of(i.id), "\"}}"@);
    lemma_parse_hex64_complete(s, ti.len() as int, i.id);
    lemma_match_at_index(s, 0, ti, 2);
    lemma_not_match_at(s, 0, ta, 2);
    lemma_not_match_at(s, 0, mar, 2);
    lemma_not_match_at(s, 0, ts, 2);
    lemma_not_match_at(s, 0, msr, 2);
    lemma_not_match_at(s, 0, tt, 2);
    lemma_not_match_at(s, 0, mtr, 2);
}

/// Law: decoding inverts encoding. For every record model (with the
/// identity's id at its defined 256-bit width), parsing the encoded line
/// yields the original model back.
pub proof fn lemma_decode_encode(m: MetadataView)
    requires
        m matches MetadataView::Identity(i) ==> i.id.len() == 32,
    ensures
        spec_decode(spec_encode(m)) == Some(m),
{
    match m {
        MetadataView::EpochEndingBackup(e) => lemma_decode_encode_epoch_leaf(e),
        MetadataView::EpochEndingBackupRange(r) => lemma_decode_encode_epoch_range(r),
        MetadataView::StateSnapshotBackup(e) => lemma_decode_encode_snapshot_leaf(e),
        MetadataView::StateSnapshotBackupRange(r) => lemma_decode_encode_snapshot_range(r),
        MetadataView::TransactionBackup(e) => lemma_decode_encode_transaction_leaf(e),
        MetadataView::TransactionBackupRange(r) => lemma_decode_encode_transaction_range(r),
        MetadataView::Identity(i) => lemma_decode_encode_identity(i),
    }
}

// ------------------------------------------------------------------
// Executable decoding.
// ------------------------------------------------------------------


fn match_lit(s: &str, i: usize, lit: &str) -> (b: bool)
    requires
        i <= s@.len(),
    ensures
        b == match_at(s@, i as int, lit@),
        s@.len() <= usize::MAX,
{
    let n = s.unicode_len();
    let ln = lit.unicode_len();
    if n - i < ln {
        return false;
    }
    let mut k: usize = 0;
    while k < ln
        invariant
            i + ln <= n,
            n == s@.len(),
            ln == lit@.len(),
            k <= ln,
            forall|t: int| 0 <= t < k ==> s@[i + t] == lit@[t],
        decreases ln - k,
    {
        let a = s.get_char(i + k);
        let b = lit.get_char(k);
        if a != b {
            proof {
                lemma_not_match_at(s@, i as int, lit@, k as int);
            }
            return false;
        }
        k += 1;
    }
    proof {
        assert forall|t: int| 0 <= t < ln implies s@.subrange(i as int, i + ln)[t] == lit@[t] by {
            assert(s@.subrange(i as int, i + ln)[t] == s@[i + t]);
        }
        assert(s@.subrange(i as int, i + ln) =~= lit@);
    }
    true
}

fn parse_lit_x(s: &str, i: usize, lit: &str) -> (r: Option<usize>)
    requires
        i <= s@.len(),
    ensures
        match r {
            Some(j) => parse_lit(s@, i as int, lit@) == Some(j as int) && i <= j <= s@.len(),
            None => parse_lit(s@, i as int, lit@) is None,
        },
{
    let ln = lit.unicode_len();
    if match_lit(s, i, lit) {
        proof {
            assert(i + ln <= s@.len());
        }
        Some(i + ln)
    } else {
        None
    }
}

fn is_dec_digit_x(c: char) -> (b: bool)
    ensures
        b == is_dec_digit_char(c),
{
    '0' <= c && c <= '9'
}

fn scan_digits_x(s: &str, i: usize) -> (r: usize)
    requires
        i <= s@.len(),
    ensures
        r == scan_digits(s@, i as int),
        i <= r <= s@.len(),
    decreases s@.len() - i,
{
    let n = s.unicode_len();
    if i < n && is_dec_digit_x(s.get_char(i)) {
        scan_digits_x(s, i + 1)
    } else {
        i
    }
}

fn dec_val_x(s: &str, i: usize, j: usize) -> (r: u128)
    requires
        i <= j <= s@.len(),
        j - i <= 20,
        forall|k: int| i <= k < j ==> is_dec_digit_char(#[trigger] s@[k]),
    ensures
        r == dec_val(s@.subrange(i as int, j as int)),
        r < pow10((j - i) as nat),
    decreases j - i,
{
    if j == i {
        proof {
            assert(s@.subrange(i as int, j as int) =~= Seq::<char>::empty());
        }
        0
    } else {
        let front = dec_val_x(s, i, j - 1);
        let c = s.get_char(j - 1);
        let d = (c as u32) - 48;
        proof {
            assert(is_dec_digit_char(s@[j - 1]));
            assert(s@.subrange(i as int, j as int).drop_last() =~= s@.subrange(
                i as int,
                j - 1 as int,
            ));
            assert(s@.subrange(i as int, j as int).last() == s@[j - 1]);
            assert(pow10((j - i) as nat) == 10 * pow10((j - i - 1) as nat));
            assert(pow10((j - i) as nat) <= pow10(20)) by {
                lemma_pow10_increases((j - i) as nat, 20);
            }
            assert(pow10(20) == 100000000000000000000) by {
                reveal_with_fuel(pow10, 21);
            }
        }
        front * 10 + (d as u128)
    }
}

/// Ten-powers grow with the exponent.
proof fn lemma_pow10_increases(a: nat, b: nat)
    requires
        a <= b,
    ensures
        pow10(a) <= pow10(b),
    decreases b,
{
    if a < b {
        lemma_pow10_increases(a, (b - 1) as nat);
        assert(pow10(b) == 10 * pow10((b - 1) as nat));
        assert(pow10((b - 1) as nat) >= 1) by {
            lemma_pow10_pos((b - 1) as nat);
        }
    }
}

/// Ten-powers are positive.
proof fn lemma_pow10_pos(k: nat)
    ensures
        pow10(k) >= 1,
    decreases k,
{
    if k > 0 {
        lemma_pow10_pos((k - 1) as nat);
    }
}

fn parse_dec_x(s: &str, i: usize) -> (r: Option<(u64, usize)>)
    requires
        i <= s@.len(),
    ensures
        match r {
            Some((v, j)) => parse_dec(s@, i as int) == Some((v, j as int)) && i < j <= s@.len(),
            None => parse_dec(s@, i as int) is None,
        },
{
    let j = scan_digits_x(s, i);
    proof {
        lemma_scan_digits(s@, i as int);
    }
    if j == i {
        return None;
    }
    if s.get_char(i) == '0' && j - i > 1 {
        return None;
    }
    if j - i > 20 {
        return None;
    }
    let v = dec_val_x(s, i, j);
    if v > 0xffff_ffff_ffff_ffff {
        return None;
    }
    Some((v as u64, j))
}

fn is_hex_x(c: char) -> (b: bool)
    ensures
        b == is_hex_digit_char(c),
{
    ('0' <= c && c <= '9') || ('a' <= c && c <= 'f')
}

fn hex_val_x(c: char) -> (r: u32)
    requires
        is_hex_digit_char(c),
    ensures
        r == hex_digit_val(c),
        r <= 15,
{
    if c <= '9' {
        (c as u32) - 48
    } else {
        (c as u32) - 87
    }
}

fn parse_jstr_x(s: &str, i: usize) -> (r: Option<(String, usize)>)
    requires
        i <= s@.len(),
    ensures
        match r {
            Some((t, j)) => parse_jstr(s@, i as int) == Some((t@, j as int)) && i < j <= s@.len(),
            None => parse_jstr(s@, i as int) is None,
        },
    decreases s@.len() - i,
{
    let n = s.unicode_len();
    if i >= n {
        return None;
    }
    let c = s.get_char(i);
    if c == '"' {
        let t = String::new();
        proof {
            assert(t@ =~= Seq::<char>::empty());
        }
        return Some((t, i + 1));
    }
    if c == '\\' {
        if i + 1 >= n {
            return None;
        }
        let c2 = s.get_char(i + 1);
        if c2 == '"' || c2 == '\\' {
            match parse_jstr_x(s, i + 2) {
                None => None,
                Some((t, j)) => {
                    let out = crate::codec::char_to_string(c2).concat(t.as_str());
                    proof {
                        assert(out@ =~= seq![s@[i + 1]] + t@);
                    }
                    Some((out, j))
                },
            }
        } else if c2 == 'u' && n - i >= 6 {
            let c3 = s.get_char(i + 2);
            let c4 = s.get_char(i + 3);
            if c3 != '0' || c4 != '0' {
                return None;
            }
            let h1 = s.get_char(i + 4);
            let h2 = s.get_char(i + 5);
            if !is_hex_x(h1) || !is_hex_x(h2) {
                return None;
            }
            let code = hex_val_x(h1) * 16 + hex_val_x(h2);
            if code >= 32 {
                return None;
            }
            let ch = (code as u8) as char;
            proof {
                assert(ch == ((code as u32) as char));
            }
            match parse_jstr_x(s, i + 6) {
                None => None,
                Some((t, j)) => {
                    let out = crate::codec::char_to_string(ch).concat(t.as_str());
                    proof {
                        assert(out@ =~= seq![((hex_digit_val(s@[i + 4]) * 16 + hex_digit_val(
                            s@[i + 5],
                        )) as u32) as char] + t@);
                    }
                    Some((out, j))
                },
            }
        } else {
            None
        }
    } else if (c as u32) < 32 {
        None
    } else {
        match parse_jstr_x(s, i + 1) {
            None => None,
            Some((t, j)) => {
                let out = crate::codec::char_to_string(c).concat(t.as_str());
                proof {
                    assert(out@ =~= seq![s@[i as int]] + t@);
                }
                Some((out, j))
            },
        }
    }
}

fn parse_hex64_x(s: &str, i: usize) -> (r: Option<(Vec<u8>, usize)>)
    requires
        i <= s@.len(),
    ensures
        match r {
            Some((id, j)) => parse_hex64(s@, i as int) == Some((id@, j as int)) && i < j
                <= s@.len(),
            None => parse_hex64(s@, i as int) is None,
        },
{
    let n = s.unicode_len();
    if n - i < 64 {
        proof {
            assert(!hex64_at(s@, i as int));
        }
        return None;
    }
    let mut bytes: Vec<u8> = Vec::new();
    let mut k: usize = 0;
    while k < 32
        invariant
            i + 64 <= n,
            n == s@.len(),
            k <= 32,
            bytes@.len() == k,
            forall|t: int| 0 <= t < 2 * k ==> is_hex_digit_char(#[trigger] s@[i + t]),
            forall|t: int|
                0 <= t < k ==> bytes@[t] == (hex_digit_val(s@[i + 2 * t]) * 16 + hex_digit_val(
                    s@[i + 2 * t + 1],
                )) as u8,
        decreases 32 - k,
    {
        let h1 = s.get_char(i + 2 * k);
        let h2 = s.get_char(i + 2 * k + 1);
        if !is_hex_x(h1) {
            proof {
                let t = 2 * (k as int);
                if hex64_at(s@, i as int) {
                    assert(is_hex_digit_char(s@[i + t]));
                }
            }
            return None;
        }
        if !is_hex_x(h2) {
            proof {
                let t = 2 * (k as int) + 1;
                if hex64_at(s@, i as int) {
                    assert(is_hex_digit_char(s@[i + t]));
                }
            }
            return None;
        }
        let b = (hex_val_x(h1) * 16 + hex_val_x(h2)) as u8;
        bytes.push(b);
        k += 1;
    }
    proof {
        assert(hex64_at(s@, i as int));
        assert(bytes@ =~= parse_hex64(s@, i as int)->Some_0.0);
    }
    Some((bytes, i + 64))
}

fn parse_epoch_leaf_x(s: &str, i: usize) -> (r: Option<(EpochEndingBackupMeta, usize)>)
    requires
        i <= s@.len(),
    ensures
        match r {
            Some((m, j)) => parse_epoch_leaf(s@, i as int) == Some((m@, j as int)) && i < j
                <= s@.len(),
            None => parse_epoch_leaf(s@, i as int) is None,
        },
{
    let i1 = match parse_lit_x(s, i, "{\"first_epoch\":") {
        Some(v) => v,
        None => {
            return None;
        },
    };
    let (fe, i2) = match parse_dec_x(s, i1) {
        Some(v) => v,
        None => {
            return None;
        },
    };
    let i3 = match parse_lit_x(s, i2, ",\"last_epoch\":") {
        Some(v) => v,
        None => {
            return None;
        },
    };
    let (le, i4) = match parse_dec_x(s, i3) {
        Some(v) => v,
        None => {
            return None;
        },
    };
    let i5 = match parse_lit_x(s, i4, ",\"first_version\":") {
        Some(v) => v,
        None => {
            return None;
        },
    };
    let (fv, i6) = match parse_dec_x(s, i5) {
        Some(v) => v,
        None => {
            return None;
        },
    };
    let i7 = match parse_lit_x(s, i6, ",\"last_version\":") {
        Some(v) => v,
        None => {
            return None;
        },
    };
    let (lv, i8) = match parse_dec_x(s, i7) {
        Some(v) => v,
        None => {
            return None;
        },
    };
    let i9 = match parse_lit_x(s, i8, ",\"manifest\":\"") {
        Some(v) => v,
        None => {
            return None;
        },
    };
    let (man, i10) = match parse_jstr_x(s, i9) {
        Some(v) => v,
        None => {
            return None;
        },
    };
    let i11 = match parse_lit_x(s, i10, "}") {
        Some(v) => v,
        None => {
            return None;
        },
    };
    let m = EpochEndingBackupMeta {
        first_epoch: fe,
        last_epoch: le,
        first_version: fv,
        last_version: lv,
        manifest: man,
    };
    proof {
        assert(m@ =~= parse_epoch_leaf(s@, i as int)->Some_0.0);
    }
    Some((m, i11))
}

fn parse_snapshot_leaf_x(s: &str, i: usize) -> (r: Option<(StateSnapshotBackupMeta, usize)>)
    requires
        i <= s@.len(),
    ensures
        match r {
            Some((m, j)) => parse_snapshot_leaf(s@, i as int) == Some((m@, j as int)) && i < j
                <= s@.len(),
            None => parse_snapshot_leaf(s@, i as int) is None,
        },
{
    let i1 = match parse_lit_x(s, i, "{\"epoch\":") {
        Some(v) => v,
        None => {
            return None;
        },
    };
    let (ep, i2) = match parse_dec_x(s, i1) {
        Some(v) => v,
        None => {
            return None;
        },
    };
    let i3 = match parse_lit_x(s, i2, ",\"version\":") {
        Some(v) => v,
        None => {
            return None;
        },
    };
    let (ver, i4) = match parse_dec_x(s, i3) {
        Some(v) => v,
        None => {
            return None;
        },
    };
    let i5 = match parse_lit_x(s, i4, ",\"manifest\":\"") {
        Some(v) => v,
        None => {
            return None;
        },
    };
    let (man, i6) = match parse_jstr_x(s, i5) {
        Some(v) => v,
        None => {
            return None;
        },
    };
    let i7 = match parse_lit_x(s, i6, "}") {
        Some(v) => v,
        None => {
            return None;
        },
    };
    let m = StateSnapshotBackupMeta { epoch: ep, version: ver, manifest: man };
    proof {
        assert(m@ =~= parse_snapshot_leaf(s@, i as int)->Some_0.0);
    }
    Some((m, i7))
}

fn parse_transaction_leaf_x(s: &str, i: usize) -> (r: Option<(TransactionBackupMeta, usize)>)
    requires
        i <= s@.len(),
    ensures
        match r {
            Some((m, j)) => parse_transaction_leaf(s@, i as int) == Some((m@, j as int)) && i < j
                <= s@.len(),
            None => parse_transaction_leaf(s@, i as int) is None,
        },
{
    let i1 = match parse_lit_x(s, i, "{\"first_version\":") {
        Some(v) => v,
        None => {
            return None;
        },
    };
    let (fv, i2) = match parse_dec_x(s, i1) {
        Some(v) => v,
        None => {
            return None;
        },
    };
    let i3 = match parse_lit_x(s, i2, ",\"last_version\":") {
        Some(v) => v,
        None => {
            return None;
        },
    };
    let (lv, i4) = match parse_dec_x(s, i3) {
        Some(v) => v,
        None => {
            return None;
        },
    };
    let i5 = match parse_lit_x(s, i4, ",\"manifest\":\"") {
        Some(v) => v,
        None => {
            return None;
        },
    };
    let (man, i6) = match parse_jstr_x(s, i5) {
        Some(v) => v,
        None => {
            return None;
        },
    };
    let i7 = match parse_lit_x(s, i6, "}") {
        Some(v) => v,
        None => {
            return None;
        },
    };
    let m = TransactionBackupMeta { first_version: fv, last_version: lv, manifest: man };
    proof {
        assert(m@ =~= parse_transaction_leaf(s@, i as int)->Some_0.0);
    }
    Some((m, i7))
}

fn parse_epoch_list_x(s: &str, i: usize) -> (r: Option<(Vec<EpochEndingBackupMeta>, usize)>)
    requires
        i <= s@.len(),
    ensures
        match r {
            Some((v, j)) => parse_epoch_list(s@, i as int) == Some((v.deep_view(), j as int)) && i
                < j <= s@.len(),
            None => parse_epoch_list(s@, i as int) is None,
        },
    decreases s@.len() - i,
{
    let (e, j) = match parse_epoch_leaf_x(s, i) {
        Some(v) => v,
        None => {
            return None;
        },
    };
    let n = s.unicode_len();
    if j < n && s.get_char(j) == ',' {
        match parse_epoch_list_x(s, j + 1) {
            None => None,
            Some((w, k)) => {
                let mut out = w;
                out.insert(0, e);
                proof {
                    assert(out.deep_view() =~= seq![e.deep_view()]
                        + parse_epoch_list(s@, j + 1)->Some_0.0);
                }
                Some((out, k))
            },
        }
    } else {
        let mut out: Vec<EpochEndingBackupMeta> = Vec::new();
        out.push(e);
        proof {
            assert(out.deep_view() =~= seq![e.deep_view()]);
        }
        Some((out, j))
    }
}

fn parse_snapshot_list_x(s: &str, i: usize) -> (r: Option<(Vec<StateSnapshotBackupMeta>, usize)>)
    requires
        i <= s@.len(),
    ensures
        match r {
            Some((v, j)) => parse_snapshot_list(s@, i as int) == Some((v.deep_view(), j as int)) && i
                < j <= s@.len(),
            None => parse_snapshot_list(s@, i as int) is None,
        },
    decreases s@.len() - i,
{
    let (e, j) = match parse_snapshot_leaf_x(s, i) {
        Some(v) => v,
        None => {
            return None;
        },
    };
    let n = s.unicode_len();
    if j < n && s.get_char(j) == ',' {
        match parse_snapshot_list_x(s, j + 1) {
            None => None,
            Some((w, k)) => {
                let mut out = w;
                out.insert(0, e);
                proof {
                    assert(out.deep_view() =~= seq![e.deep_view()]
                        + parse_snapshot_list(s@, j + 1)->Some_0.0);
                }
                Some((out, k))
            },
        }
    } else {
        let mut out: Vec<StateSnapshotBackupMeta> = Vec::new();
        out.push(e);
        proof {
            assert(out.deep_view() =~= seq![e.deep_view()]);
        }
        Some((out, j))
    }
}

fn parse_transaction_list_x(s: &str, i: usize) -> (r: Option<(Vec<TransactionBackupMeta>, usize)>)
    requires
        i <= s@.len(),
    ensures
        match r {
            Some((v, j)) => parse_transaction_list(s@, i as int) == Some((v.deep_view(), j as int)) && i
                < j <= s@.len(),
            None => parse_transaction_list(s@, i as int) is None,
        },
    decreases s@.len() - i,
{
    let (e, j) = match parse_transaction_leaf_x(s, i) {
        Some(v) => v,
        None => {
            return None;
        },
    };
    let n = s.unicode_len();
    if j < n && s.get_char(j) == ',' {
        match parse_transaction_list_x(s, j + 1) {
            None => None,
            Some((w, k)) => {
                let mut out = w;
                out.insert(0, e);
                proof {
                    assert(out.deep_view() =~= seq![e.deep_view()]
                        + parse_transaction_list(s@, j + 1)->Some_0.0);
                }
                Some((out, k))
            },
        }
    } else {
        let mut out: Vec<TransactionBackupMeta> = Vec::new();
        out.push(e);
        proof {
            assert(out.deep_view() =~= seq![e.deep_view()]);
        }
        Some((out, j))
    }
}

fn parse_epoch_range_x(s: &str, i: usize) -> (r: Option<Metadata>)
    requires
        i <= s@.len(),
    ensures
        match r {
            Some(m) => parse_epoch_range(s@, i as int) == Some(m@),
            None => parse_epoch_range(s@, i as int) is None,
        },
{
    let (fe, i2) = match parse_dec_x(s, i) {
        Some(v) => v,
        None => {
            return None;
        },
    };
    let i3 = match parse_lit_x(s, i2, ",\"last_epoch\":") {
        Some(v) => v,
        None => {
            return None;
        },
    };
    let (le, i4) = match parse_dec_x(s, i3) {
        Some(v) => v,
        None => {
            return None;
        },
    };
    let i5 = match parse_lit_x(s, i4, ",\"first_version\":") {
        Some(v) => v,
        None => {
            return None;
        },
    };
    let (fv, i6) = match parse_dec_x(s, i5) {
        Some(v) => v,
        None => {
            return None;
        },
    };
    let i7 = match parse_lit_x(s, i6, ",\"last_version\":") {
        Some(v) => v,
        None => {
            return None;
        },
    };
    let (lv, i8) = match parse_dec_x(s, i7) {
        Some(v) => v,
        None => {
            return None;
        },
    };
    let i9 = match parse_lit_x(s, i8, ",\"backup_metas\":[") {
        Some(v) => v,
        None => {
            return None;
        },
    };
    let n = s.unicode_len();
    if match_lit(s, i9, "]}}") {
        if n - i9 == 3 {
            let m = Metadata::EpochEndingBackupRange(EpochEndingBackupMetaRange {
                first_epoch: fe,
                last_epoch: le,
                first_version: fv,
                last_version: lv,
                backup_metas: Vec::new(),
            });
            proof {
                assert(m@ =~= parse_epoch_range(s@, i as int)->Some_0);
            }
            Some(m)
        } else {
            None
        }
    } else {
        let (w, q) = match parse_epoch_list_x(s, i9) {
            Some(v) => v,
            None => {
                return None;
            },
        };
        if match_lit(s, q, "]}}") && n - q == 3 {
            let m = Metadata::EpochEndingBackupRange(EpochEndingBackupMetaRange {
                first_epoch: fe,
                last_epoch: le,
                first_version: fv,
                last_version: lv,
                backup_metas: w,
            });
            proof {
                assert(m@ =~= parse_epoch_range(s@, i as int)->Some_0);
            }
            Some(m)
        } else {
            None
        }
    }
}

fn parse_snapshot_range_x(s: &str, i: usize) -> (r: Option<Metadata>)
    requires
        i <= s@.len(),
    ensures
        match r {
            Some(m) => parse_snapshot_range(s@, i as int) == Some(m@),
            None => parse_snapshot_range(s@, i as int) is None,
        },
{
    let (fe, i2) = match parse_dec_x(s, i) {
        Some(v) => v,
        None => {
            return None;
        },
    };
    let i3 = match parse_lit_x(s, i2, ",\"last_epoch\":") {
        Some(v) => v,
        None => {
            return None;
        },
    };
    let (le, i4) = match parse_dec_x(s, i3) {
        Some(v) => v,
        None => {
            return None;
        },
    };
    let i5 = match parse_lit_x(s, i4, ",\"first_version\":") {
        Some(v) => v,
        None => {
            return None;
        },
    };
    let (fv, i6) = match parse_dec_x(s, i5) {
        Some(v) => v,
        None => {
            return None;
        },
    };
    let i7 = match parse_lit_x(s, i6, ",\"last_version\":") {
        Some(v) => v,
        None => {
            return None;
        },
    };
    let (lv, i8) = match parse_dec_x(s, i7) {
        Some(v) => v,
        None => {
            return None;
        },
    };
    let i9 = match parse_lit_x(s, i8, ",\"backup_metas\":[") {
        Some(v) => v,
        None => {
            return None;
        },
    };
    let n = s.unicode_len();
    if match_lit(s, i9, "]}}") {
        if n - i9 == 3 {
            let m = Metadata::StateSnapshotBackupRange(StateSnapshotBackupMetaRange {
                first_epoch: fe,
                last_epoch: le,
                first_version: fv,
                last_version: lv,
                backup_metas: Vec::new(),
            });
            proof {
                assert(m@ =~= parse_snapshot_range(s@, i as int)->Some_0);
            }
            Some(m)
        } else {
            None
        }
    } else {
        let (w, q) = match parse_snapshot_list_x(s, i9) {
            Some(v) => v,
            None => {
                return None;
            },
        };
        if match_lit(s, q, "]}}") && n - q == 3 {
            let m = Metadata::StateSnapshotBackupRange(StateSnapshotBackupMetaRange {
                first_epoch: fe,
                last_epoch: le,
                first_version: fv,
                last_version: lv,
                backup_metas: w,
            });
            proof {
                assert(m@ =~= parse_snapshot_range(s@, i as int)->Some_0);
            }
            Some(m)
        } else {
            None
        }
    }
}

fn parse_transaction_range_x(s: &str, i: usize) -> (r: Option<Metadata>)
    requires
        i <= s@.len(),
    ensures
        match r {
            Some(m) => parse_transaction_range(s@, i as int) == Some(m@),
            None => parse_transaction_range(s@, i as int) is None,
        },
{
    let (fv, i2) = match parse_dec_x(s, i) {
        Some(v) => v,
        None => {
            return None;
        },
    };
    let i3 = match parse_lit_x(s, i2, ",\"last_version\":") {
        Some(v) => v,
        None => {
            return None;
        },
    };
    let (lv, i4) = match parse_dec_x(s, i3) {
        Some(v) => v,
        None => {
            return None;
        },
    };
    let i5 = match parse_lit_x(s, i4, ",\"backup_metas\":[") {
        Some(v) => v,
        None => {
            return None;
        },
    };
    let n = s.unicode_len();
    if match_lit(s, i5, "]}}") {
        if n - i5 == 3 {
            let m = Metadata::TransactionBackupRange(TransactionBackupMetaRange {
                first_version: fv,
                last_version: lv,
                backup_metas: Vec::new(),
            });
            proof {
                assert(m@ =~= parse_transaction_range(s@, i as int)->Some_0);
            }
            Some(m)
        } else {
            None
        }
    } else {
        let (w, q) = match parse_transaction_list_x(s, i5) {
            Some(v) => v,
            None => {
                return None;
            },
        };
        if match_lit(s, q, "]}}") && n - q == 3 {
            let m = Metadata::TransactionBackupRange(TransactionBackupMetaRange {
                first_version: fv,
                last_version: lv,
                backup_metas: w,
            });
            proof {
                assert(m@ =~= parse_transaction_range(s@, i as int)->Some_0);
            }
            Some(m)
        } else {
            None
        }
    }
}

impl Metadata {
    /// Decodes one persisted index line. Exactly the canonical lines this
    /// module's encoder produces are accepted; the result's model is what
    /// the strict specification-level decoder yields.
    pub fn from_text_line(line: &str) -> (r: Option<Metadata>)
        ensures
            r is Some <==> spec_decode(line@) is Some,
            r matches Some(m) ==> spec_decode(line@) == Some(m@),
    {
        if match_lit(line, 0, "{\"EpochEndingBackup\":") {
            let tl = "{\"EpochEndingBackup\":".unicode_len();
            match parse_epoch_leaf_x(line, tl) {
                None => None,
                Some((e, j)) => {
                    let n = line.unicode_len();
                    if match_lit(line, j, "}") && n - j == 1 {
                        Some(Metadata::EpochEndingBackup(e))
                    } else {
                        None
                    }
                },
            }
        } else if match_lit(line, 0, "{\"EpochEndingBackupRange\":{\"first_epoch\":") {
            let tl = "{\"EpochEndingBackupRange\":{\"first_epoch\":".unicode_len();
            parse_epoch_range_x(line, tl)
        } else if match_lit(line, 0, "{\"StateSnapshotBackup\":") {
            let tl = "{\"StateSnapshotBackup\":".unicode_len();
            match parse_snapshot_leaf_x(line, tl) {
                None => None,
                Some((e, j)) => {
                    let n = line.unicode_len();
                    if match_lit(line, j, "}") && n - j == 1 {
                        Some(Metadata::StateSnapshotBackup(e))
                    } else {
                        None
                    }
                },
            }
        } else if match_lit(line, 0, "{\"StateSnapshotBackupRange\":{\"first_epoch\":") {
            let tl = "{\"StateSnapshotBackupRange\":{\"first_epoch\":".unicode_len();
            parse_snapshot_range_x(line, tl)
        } else if match_lit(line, 0, "{\"TransactionBackup\":") {
            let tl = "{\"TransactionBackup\":".unicode_len();
            match parse_transaction_leaf_x(line, tl) {
                None => None,
                Some((e, j)) => {
                    let n = line.unicode_len();
                    if match_lit(line, j, "}") && n - j == 1 {
                        Some(Metadata::TransactionBackup(e))
                    } else {
                        None
                    }
                },
            }
        } else if match_lit(line, 0, "{\"TransactionBackupRange\":{\"first_version\":") {
            let tl = "{\"TransactionBackupRange\":{\"first_version\":".unicode_len();
            parse_transaction_range_x(line, tl)
        } else if match_lit(line, 0, "{\"Identity\":{\"id\":\"") {
            let tl = "{\"Identity\":{\"id\":\"".unicode_len();
            match parse_hex64_x(line, tl) {
                None => None,
                Some((id, j)) => {
                    let n = line.unicode_len();
                    if match_lit(line, j, "\"}}") && n - j == 3 {
                        Some(Metadata::Identity(IdentityMeta { id }))
                    } else {
                        None
                    }
                },
            }
        } else {
            None
        }
    }
}
} // verus!
