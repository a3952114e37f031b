use vstd::prelude::*;

use crate::crc::{crc16_ccitt_false, lemma_crc_residue, with_crc};
use crate::image_iso::{
    crc_items, enc_items, gap_items, gaps_nonnegative, interleaving_table, iso_data_header_items,
    iso_data_items, iso_sector_items, iso_sectorheader_bytes, iso_sectorheader_items,
    iso_sectors_items, iso_track_items, lemma_interleaving_table_permutes, sector_data, sync3,
    sync_bytes, interleave_target, targets_distinct, IsoGeometry,
};
use crate::mfm::{MfmItem, MfmWord};
use crate::track_parser::{
    flatten_payloads, has_sector, lemma_sort_by_index, sort_by_index, sorted_by_index,
};
use crate::track_parser::iso::{
    dam_prefix, enc_run, enc_run_consumed, enc_values, idam_prefix, iso_scan, pow2_u8, resize_to,
    IsoScan, IsoScanEnd,
};

verus! {

/// The word that an item reads back as on its own: a data byte as itself, a sync as a sync
/// word.
pub open spec fn item_word(i: MfmItem) -> Option<MfmWord> {
    match i {
        MfmItem::Enc8(v) => Some(MfmWord::Enc(v)),
        MfmItem::Sync => Some(MfmWord::SyncWord),
        _ => None,
    }
}

/// The word that item `k` of `items` reads back as from a decoder in step with the words: a
/// sync followed by another sync carries the data bits `0xa1` and reads as that byte, as the
/// sync detector fires only at the end of three syncs in a row; otherwise as [`item_word`]
/// says.
pub open spec fn read_word(items: Seq<MfmItem>, k: int) -> Option<MfmWord> {
    if items[k] is Sync && k + 1 < items.len() && items[k + 1] is Sync {
        Some(MfmWord::Enc(0xa1))
    } else {
        item_word(items[k])
    }
}

/// The words from `p` on are those that `items` read back as.
pub open spec fn carries_items(w: Seq<MfmWord>, p: int, items: Seq<MfmItem>) -> bool {
    &&& 0 <= p
    &&& p + items.len() <= w.len()
    &&& forall|k: int| 0 <= k < items.len() ==> Some(#[trigger] w[p + k]) == read_word(items, k)
}

/// What is left of a count of `a` words after `k` more.
pub open spec fn count_down(a: nat, k: nat) -> nat {
    if a >= k {
        (a - k) as nat
    } else {
        0
    }
}

/// Words that are no sync words are passed over one by one.
proof fn lemma_skip_bytes(
    w: Seq<MfmWord>,
    p: int,
    k: nat,
    s: IsoScan,
    cylinder: u32,
    head: u32,
    expected_sectors: Option<usize>,
)
    requires
        0 <= p,
        p + k <= w.len(),
        forall|j: int| 0 <= j < k ==> #[trigger] w[p + j] is Enc,
    ensures
        iso_scan(w, p, s, cylinder, head, expected_sectors) == iso_scan(
            w,
            p + k,
            IsoScan { awaiting: count_down(s.awaiting, k), ..s },
            cylinder,
            head,
            expected_sectors,
        ),
    decreases k,
{
    if k > 0 {
        assert(w[p + 0] is Enc);
        let s1 = IsoScan { awaiting: count_down(s.awaiting, 1), ..s };
        assert forall|j: int| 0 <= j < k - 1 implies #[trigger] w[(p + 1) + j] is Enc by {
            assert(w[p + (j + 1)] is Enc);
        }
        lemma_skip_bytes(w, p + 1, (k - 1) as nat, s1, cylinder, head, expected_sectors);
        assert(IsoScan { awaiting: count_down(s1.awaiting, (k - 1) as nat), ..s1 } == IsoScan {
            awaiting: count_down(s.awaiting, k),
            ..s
        });
    }
}

/// Words that all carry data bytes read as those bytes, whichever way they are read.
proof fn lemma_enc_words(w: Seq<MfmWord>, q: int, b: Seq<u8>)
    requires
        0 <= q,
        q + b.len() <= w.len(),
        forall|j: int| 0 <= j < b.len() ==> #[trigger] w[q + j] == MfmWord::Enc(b[j]),
    ensures
        enc_values(w, q, b.len()) == b,
        enc_run(w, q, b.len()) == b,
        enc_run_consumed(w, q, b.len()) == b.len(),
    decreases b.len(),
{
    if b.len() > 0 {
        assert(w[q + 0] == MfmWord::Enc(b[0]));
        let rest = b.drop_first();
        assert forall|j: int| 0 <= j < rest.len() implies #[trigger] w[(q + 1) + j] == MfmWord::Enc(
            rest[j],
        ) by {
            assert(w[q + (j + 1)] == MfmWord::Enc(b[j + 1]));
        }
        lemma_enc_words(w, q + 1, rest);
        assert(seq![b[0]] + rest =~= b);
    }
}

/// The state of the search behind one generated sector, found when the search entered it
/// in state `s`.
pub open spec fn iso_state_after_sector(
    s: IsoScan,
    cylinder: u8,
    head: u8,
    g: IsoGeometry,
    sector: u8,
    d: Seq<u8>,
) -> IsoScan {
    IsoScan {
        awaiting: count_down((37 - g.gap3a_size - g.gap3b_size) as nat, g.gap4_size as nat),
        header: with_crc(sync_bytes() + iso_sectorheader_bytes(cylinder, head, sector, 2)).subrange(
            4,
            10,
        ),
        duplicates: s.duplicates,
        collected: s.collected.push((sector as u32, d)),
    }
}

/// The part of [`lemma_iso_sector_reads_back`] from the sync word on: over a sync word and
/// the words that carry the rest of a generated sector behind its syncs, the search takes the
/// sector, whatever it waited for before. This is how a new decoder reads the first sector of
/// a track, as it gives no words before the first three syncs and one sync word for them.
pub proof fn lemma_iso_sector_from_sync(
    w: Seq<MfmWord>,
    p2: int,
    cylinder: u8,
    head: u8,
    g: IsoGeometry,
    sector: u8,
    d: Seq<u8>,
    s: IsoScan,
    expected_sectors: Option<usize>,
)
    requires
        d.len() == 512,
        gaps_nonnegative(g),
        g.gap3a_size + g.gap3b_size < 37,
        0 <= p2 < w.len(),
        w[p2] == MfmWord::SyncWord,
        carries_items(w, p2 + 1, iso_sector_items(cylinder, head, g, sector, d).skip(g.gap2_size + 3)),
        !has_sector(s.collected, sector as u32),
    ensures
        ({
            let after = iso_state_after_sector(s, cylinder, head, g, sector, d);
            let len = iso_sector_items(cylinder, head, g, sector, d).len();
            if expected_sectors == Some(after.collected.len() as usize) {
                iso_scan(w, p2, s, cylinder as u32, head as u32, expected_sectors) == (
                    IsoScanEnd::Done,
                    IsoScan { awaiting: (37 - g.gap3a_size - g.gap3b_size) as nat, ..after },
                )
            } else {
                iso_scan(w, p2, s, cylinder as u32, head as u32, expected_sectors) == iso_scan(
                    w,
                    p2 + len - g.gap2_size - 2,
                    after,
                    cylinder as u32,
                    head as u32,
                    expected_sectors,
                )
            }
        }),
{
    let c32 = cylinder as u32;
    let h32 = head as u32;
    let g2 = g.gap2_size as int;
    let g3a = g.gap3a_size as int;
    let g3b = g.gap3b_size as int;
    let g4 = g.gap4_size as int;
    let hb = iso_sectorheader_bytes(cylinder, head, sector, 2);
    let hcrc = crc16_ccitt_false(sync_bytes() + hb);
    let hitems = iso_sectorheader_items(g2 as nat, cylinder, head, sector, 2);
    let aitems = gap_items(g3a as nat, 0x4e);
    let ditems = iso_data_header_items(g3b as nat, None);
    let eitems = iso_data_items(d, None);
    let fitems = gap_items(g4 as nat, 0x4e);
    let items = iso_sector_items(cylinder, head, g, sector, d);
    assert(items == hitems + aitems + ditems + eitems + fitems);
    assert(hitems.len() == g2 + 10);
    assert(ditems.len() == g3b + 4);
    assert(eitems.len() == 514);
    let p = p2 - 2 - g2;
    let ph = p + g2;
    let pa = ph + 10;
    let q = pa + g3a + g3b;
    let pe = q + 4;
    let pf = pe + 514;
    assert(items.len() == g2 + 10 + g3a + g3b + 4 + 514 + g4);
    // what each stretch of words reads as
    let rest = items.skip(g2 + 3);
    assert forall|j: int| g2 + 3 <= j < items.len() implies Some(#[trigger] w[p + j]) == read_word(
        items,
        j,
    ) by {
        let k = j - (g2 + 3);
        assert(Some(w[(p2 + 1) + k]) == read_word(rest, k));
        assert(rest[k] == items[j]);
        if k + 1 < rest.len() {
            assert(rest[k + 1] == items[j + 1]);
        }
    }
    let hdr6 = with_crc(sync_bytes() + hb).subrange(4, 10);
    assert(hdr6 =~= seq![cylinder, head, sector, 2u8, (hcrc >> 8u16) as u8, (hcrc & 0xffu16) as u8]);
    assert forall|j: int| 0 <= j < 7 implies #[trigger] w[ph + 3 + j] == MfmWord::Enc(
        (seq![0xfeu8] + hdr6)[j],
    ) by {
        assert(items[g2 + 3 + j] == hitems[g2 + 3 + j]);
        if j < 5 {
            assert(hitems[g2 + 3 + j] == enc_items(hb)[j]);
        } else {
            assert(hitems[g2 + 3 + j] == crc_items(hcrc)[j - 5]);
        }
        assert(Some(w[p + (g2 + 3 + j)]) == read_word(items, g2 + 3 + j));
    }
    assert forall|j: int| 0 <= j < 6 implies #[trigger] w[(ph + 4) + j] == MfmWord::Enc(hdr6[j]) by {
        assert(w[ph + 3 + (j + 1)] == MfmWord::Enc((seq![0xfeu8] + hdr6)[j + 1]));
    }
    lemma_enc_words(w, ph + 4, hdr6);
    assert forall|j: int| 0 <= j < g3a + g3b implies #[trigger] w[pa + j] is Enc by {
        if j < g3a {
            assert(items[g2 + 10 + j] == aitems[j]);
        } else {
            assert(items[g2 + 10 + j] == ditems[j - g3a]);
        }
        assert(Some(w[p + (g2 + 10 + j)]) == read_word(items, g2 + 10 + j));
    }
    assert forall|j: int| 0 <= j < 4 implies #[trigger] items[g2 + 10 + g3a + g3b + j] == ditems[g3b
        + j] by {}
    assert(ditems[g3b] == MfmItem::Sync && ditems[g3b + 1] == MfmItem::Sync && ditems[g3b + 2]
        == MfmItem::Sync && ditems[g3b + 3] == MfmItem::Enc8(0xfb));
    assert(Some(w[p + (g2 + 10 + g3a + g3b)]) == read_word(items, g2 + 10 + g3a + g3b));
    assert(Some(w[p + (g2 + 10 + g3a + g3b + 1)]) == read_word(items, g2 + 10 + g3a + g3b + 1));
    assert(Some(w[p + (g2 + 10 + g3a + g3b + 2)]) == read_word(items, g2 + 10 + g3a + g3b + 2));
    assert(w[q] == MfmWord::Enc(0xa1) && w[q + 1] == MfmWord::Enc(0xa1) && w[q + 2]
        == MfmWord::SyncWord);
    assert(w[q + 3] == MfmWord::Enc(0xfb)) by {
        assert(items[g2 + 10 + g3a + g3b + 3] == ditems[g3b + 3]);
        assert(Some(w[p + (g2 + 10 + g3a + g3b + 3)]) == read_word(items, g2 + 10 + g3a + g3b + 3));
    }
    let dprefix = sync_bytes() + seq![0xfbu8];
    let dcrc = crc16_ccitt_false(dprefix + d);
    let data = with_crc(dprefix + d).subrange(4, 518);
    assert(data =~= d + seq![(dcrc >> 8u16) as u8, (dcrc & 0xffu16) as u8]);
    assert forall|j: int| 0 <= j < 514 implies #[trigger] w[pe + j] == MfmWord::Enc(data[j]) by {
        assert(items[g2 + 10 + g3a + g3b + 4 + j] == eitems[j]);
        if j < 512 {
            assert(eitems[j] == enc_items(d)[j]);
        } else {
            assert(eitems[j] == crc_items(dcrc)[j - 512]);
        }
        assert(Some(w[p + (g2 + 10 + g3a + g3b + 4 + j)]) == read_word(
            items,
            g2 + 10 + g3a + g3b + 4 + j,
        ));
    }
    lemma_enc_words(w, pe, data);
    assert forall|j: int| 0 <= j < g4 implies #[trigger] w[pf + j] is Enc by {
        assert(items[g2 + 10 + g3a + g3b + 518 + j] == fitems[j]);
        assert(Some(w[p + (g2 + 10 + g3a + g3b + 518 + j)]) == read_word(
            items,
            g2 + 10 + g3a + g3b + 518 + j,
        ));
    }
    // the checksums check
    lemma_crc_residue(sync_bytes() + hb);
    assert(idam_prefix() + hdr6 =~= with_crc(sync_bytes() + hb));
    lemma_crc_residue(dprefix + d);
    assert(dam_prefix() + data =~= with_crc(dprefix + d));
    reveal_with_fuel(pow2_u8, 3);
    assert(resize_to(data, 512) =~= d);
    // the search, stretch by stretch
    let s2 = s;
    let s3 = IsoScan { awaiting: 40, header: hdr6, duplicates: s.duplicates, collected: s.collected };
    assert(w[ph + 2] == MfmWord::SyncWord);
    assert(w[(ph + 2) + 1] == MfmWord::Enc(0xfe)) by {
        assert(w[ph + 3 + 0] == MfmWord::Enc((seq![0xfeu8] + hdr6)[0]));
    }
    assert(enc_values(w, (ph + 2) + 2, 6) == hdr6);
    assert(crc16_ccitt_false(idam_prefix() + hdr6) == 0);
    assert(hdr6[0] as u32 == c32 && hdr6[1] as u32 == h32 && hdr6[2] as u32 == sector as u32);
    assert((ph + 2) + 8 < w.len());
    assert(iso_scan(w, p2, s2, c32, h32, expected_sectors) == iso_scan(w, pa, s3, c32, h32, expected_sectors));
    assert forall|j: int| 0 <= j < g3a + g3b + 2 implies #[trigger] w[pa + j] is Enc by {
        if j >= g3a + g3b {
            assert(w[q + (j - g3a - g3b)] is Enc);
        }
    }
    lemma_skip_bytes(w, pa, (g3a + g3b + 2) as nat, s3, c32, h32, expected_sectors);
    let s5 = IsoScan { awaiting: (38 - g3a - g3b) as nat, ..s3 };
    assert(w[(q + 2) + 1] == MfmWord::Enc(0xfb));
    assert(enc_run(w, (q + 2) + 2, 514) == data);
    assert(enc_run_consumed(w, (q + 2) + 2, 514) == 514);
    assert(pa + (g3a + g3b + 2) == q + 2);
    let after = iso_state_after_sector(s, cylinder, head, g, sector, d);
    let s6 = IsoScan { awaiting: (37 - g3a - g3b) as nat, ..after };
    if expected_sectors == Some(after.collected.len() as usize) {
        assert(iso_scan(w, q + 2, s5, c32, h32, expected_sectors) == (IsoScanEnd::Done, s6));
    } else {
        assert(iso_scan(w, q + 2, s5, c32, h32, expected_sectors) == iso_scan(w, pf, s6, c32, h32, expected_sectors));
        lemma_skip_bytes(w, pf, g4 as nat, s6, c32, h32, expected_sectors);
        assert(IsoScan { awaiting: count_down(s6.awaiting, g4 as nat), ..s6 } == after);
    }
}

/// The track parser reads back a sector that the track generator wrote: over the words that
/// carry one generated sector (gap, header, gaps, data and the gap behind it) of the
/// expected cylinder and head, the search takes the sector's number and its 512 bytes into
/// what it collected, provided it had not collected that sector yet. It then goes on behind
/// the sector, or stops at the end of the sector's data once all expected sectors are there.
pub proof fn lemma_iso_sector_reads_back(
    w: Seq<MfmWord>,
    p: int,
    cylinder: u8,
    head: u8,
    g: IsoGeometry,
    sector: u8,
    d: Seq<u8>,
    s: IsoScan,
    expected_sectors: Option<usize>,
)
    requires
        d.len() == 512,
        gaps_nonnegative(g),
        g.gap3a_size + g.gap3b_size < 37,
        carries_items(w, p, iso_sector_items(cylinder, head, g, sector, d)),
        !has_sector(s.collected, sector as u32),
    ensures
        ({
            let after = iso_state_after_sector(s, cylinder, head, g, sector, d);
            let len = iso_sector_items(cylinder, head, g, sector, d).len();
            if expected_sectors == Some(after.collected.len() as usize) {
                iso_scan(w, p, s, cylinder as u32, head as u32, expected_sectors) == (
                    IsoScanEnd::Done,
                    IsoScan { awaiting: (37 - g.gap3a_size - g.gap3b_size) as nat, ..after },
                )
            } else {
                iso_scan(w, p, s, cylinder as u32, head as u32, expected_sectors) == iso_scan(
                    w,
                    p + len,
                    after,
                    cylinder as u32,
                    head as u32,
                    expected_sectors,
                )
            }
        }),
{
    let g2 = g.gap2_size as int;
    let items = iso_sector_items(cylinder, head, g, sector, d);
    let hitems = iso_sectorheader_items(g2 as nat, cylinder, head, sector, 2);
    let rest_items = iso_sector_items(cylinder, head, g, sector, d).skip(g2 + 3);
    assert(items.len() >= g2 + 10);
    assert forall|j: int| 0 <= j < g2 + 4 implies #[trigger] items[j] == hitems[j] by {}
    assert forall|j: int| 0 <= j < g2 implies #[trigger] w[p + j] is Enc by {
        assert(Some(w[p + j]) == read_word(items, j));
    }
    assert(hitems[g2] == MfmItem::Sync && hitems[g2 + 1] == MfmItem::Sync && hitems[g2 + 2]
        == MfmItem::Sync && hitems[g2 + 3] == MfmItem::Enc8(0xfe));
    assert(Some(w[p + g2]) == read_word(items, g2));
    assert(Some(w[p + (g2 + 1)]) == read_word(items, g2 + 1));
    assert(Some(w[p + (g2 + 2)]) == read_word(items, g2 + 2));
    assert forall|j: int| 0 <= j < g2 + 2 implies #[trigger] w[p + j] is Enc by {
        if j >= g2 {
            assert(Some(w[p + j]) == read_word(items, j));
        }
    }
    lemma_skip_bytes(w, p, (g2 + 2) as nat, s, cylinder as u32, head as u32, expected_sectors);
    let s2 = IsoScan { awaiting: count_down(s.awaiting, (g2 + 2) as nat), ..s };
    lemma_carries_part(w, p, items, g2 + 3, items.len() as int);
    assert(items.subrange(g2 + 3, items.len() as int) =~= rest_items);
    lemma_iso_sector_from_sync(w, p + g2 + 2, cylinder, head, g, sector, d, s2, expected_sectors);
    assert(iso_state_after_sector(s2, cylinder, head, g, sector, d) == iso_state_after_sector(
        s,
        cylinder,
        head,
        g,
        sector,
        d,
    ));
}

/// The number of items of one generated sector.
pub open spec fn iso_sector_len(g: IsoGeometry) -> int {
    g.gap2_size + g.gap3a_size + g.gap3b_size + g.gap4_size + 528
}

/// The sectors that the first `k` slots of `table` write, each with its number.
pub open spec fn table_sectors(d: Seq<u8>, table: Seq<usize>, k: nat) -> Seq<(u32, Seq<u8>)> {
    Seq::new(k, |t: int| (((table[t] + 1) as u8) as u32, sector_data(d, table[t] as int)))
}

/// Words that carry a stretch of items carry every part of it.
proof fn lemma_carries_part(w: Seq<MfmWord>, p: int, items: Seq<MfmItem>, a: int, b: int)
    requires
        carries_items(w, p, items),
        0 <= a <= b <= items.len(),
        a < b < items.len() ==> items[b - 1] !is Sync,
    ensures
        carries_items(w, p + a, items.subrange(a, b)),
{
    assert forall|k: int| 0 <= k < b - a implies Some(#[trigger] w[(p + a) + k]) == read_word(
        items.subrange(a, b),
        k,
    ) by {
        assert(Some(w[p + (a + k)]) == read_word(items, a + k));
        assert(items.subrange(a, b)[k] == items[a + k]);
        if k + 1 < b - a {
            assert(items.subrange(a, b)[k + 1] == items[a + k + 1]);
        }
    }
}

proof fn lemma_sector_items_len(cylinder: u8, head: u8, g: IsoGeometry, sector: u8, d: Seq<u8>)
    requires
        gaps_nonnegative(g),
        d.len() == 512,
    ensures
        iso_sector_items(cylinder, head, g, sector, d).len() == iso_sector_len(g),
{
}

/// A generated sector ends with a data byte, of its last gap or of its checksum.
proof fn lemma_sector_ends_with_byte(cylinder: u8, head: u8, g: IsoGeometry, sector: u8, d: Seq<u8>)
    requires
        gaps_nonnegative(g),
        d.len() == 512,
    ensures
        iso_sector_items(cylinder, head, g, sector, d)[iso_sector_len(g) - 1] is Enc8,
{
    let items = iso_sector_items(cylinder, head, g, sector, d);
    let g4 = g.gap4_size as nat;
    let front = iso_sectorheader_items(g.gap2_size as nat, cylinder, head, sector, 2) + gap_items(
        g.gap3a_size as nat,
        0x4e,
    ) + iso_data_header_items(g.gap3b_size as nat, None) + iso_data_items(d, None);
    assert(items == front + gap_items(g4, 0x4e));
    lemma_sector_items_len(cylinder, head, g, sector, d);
    if g4 == 0 {
        assert(items[iso_sector_len(g) - 1] == iso_data_items(d, None)[513]);
    } else {
        assert(items[iso_sector_len(g) - 1] == gap_items(g4, 0x4e)[g4 - 1]);
    }
}

/// The generated sectors lie one behind the other, each as long as the others.
proof fn lemma_sectors_layout(
    cylinder: u8,
    head: u8,
    g: IsoGeometry,
    d: Seq<u8>,
    table: Seq<usize>,
    n: nat,
)
    requires
        gaps_nonnegative(g),
        forall|t: int| 0 <= t < n ==> (#[trigger] sector_data(d, table[t] as int)).len() == 512,
    ensures
        iso_sectors_items(cylinder, head, g, d, table, n).len() == n * iso_sector_len(g),
        forall|k: int|
            0 <= k < n ==> #[trigger] iso_sectors_items(cylinder, head, g, d, table, n).subrange(
                k * iso_sector_len(g),
                k * iso_sector_len(g) + iso_sector_len(g),
            ) == iso_sector_items(
                cylinder,
                head,
                g,
                (table[k] + 1) as u8,
                sector_data(d, table[k] as int),
            ),
    decreases n,
{
    let l = iso_sector_len(g);
    if n > 0 {
        let m = (n - 1) as nat;
        lemma_sectors_layout(cylinder, head, g, d, table, m);
        let prev = iso_sectors_items(cylinder, head, g, d, table, m);
        let last = iso_sector_items(
            cylinder,
            head,
            g,
            (table[m as int] + 1) as u8,
            sector_data(d, table[m as int] as int),
        );
        assert(sector_data(d, table[m as int] as int).len() == 512);
        lemma_sector_items_len(
            cylinder,
            head,
            g,
            (table[m as int] + 1) as u8,
            sector_data(d, table[m as int] as int),
        );
        let all = iso_sectors_items(cylinder, head, g, d, table, n);
        assert(all == prev + last);
        assert(m * l + l == n * l) by (nonlinear_arith)
            requires
                m + 1 == n,
        ;
        assert forall|k: int| 0 <= k < n implies #[trigger] all.subrange(k * l, k * l + l)
            == iso_sector_items(
            cylinder,
            head,
            g,
            (table[k] + 1) as u8,
            sector_data(d, table[k] as int),
        ) by {
            if k < m {
                assert(k * l + l <= m * l) by (nonlinear_arith)
                    requires
                        k < m,
                        l >= 0,
                ;
                assert(0 <= k * l) by (nonlinear_arith)
                    requires
                        0 <= k,
                        l >= 0,
                ;
                assert(all.subrange(k * l, k * l + l) =~= prev.subrange(k * l, k * l + l));
            } else {
                assert(all.subrange(k * l, k * l + l) =~= last);
            }
        }
    }
}

/// The search through generated sectors `k` and on collects every one of them, provided
/// that the first `k` were collected before and that no two slots hold the same sector.
#[verifier::rlimit(60)]
#[verifier::spinoff_prover]
proof fn lemma_sectors_scan(
    w: Seq<MfmWord>,
    base: int,
    cylinder: u8,
    head: u8,
    g: IsoGeometry,
    d: Seq<u8>,
    table: Seq<usize>,
    n: nat,
    k: nat,
    s: IsoScan,
    expected_sectors: Option<usize>,
) -> (r: IsoScan)
    requires
        k < n <= 255,
        gaps_nonnegative(g),
        g.gap3a_size + g.gap3b_size < 37,
        forall|t: int| 0 <= t < n ==> #[trigger] table[t] < n,
        forall|t1: int, t2: int|
            0 <= t1 < n && 0 <= t2 < n && t1 != t2 ==> #[trigger] table[t1] != #[trigger] table[t2],
        forall|t: int| 0 <= t < n ==> (#[trigger] sector_data(d, table[t] as int)).len() == 512,
        carries_items(
            w,
            base + k * iso_sector_len(g),
            iso_sectors_items(cylinder, head, g, d, table, n).skip(k * iso_sector_len(g)),
        ),
        s.collected == table_sectors(d, table, k),
        expected_sectors == Some(n as usize) || expected_sectors is None,
    ensures
        r.collected == table_sectors(d, table, n),
        r.duplicates == s.duplicates,
        expected_sectors is Some ==> iso_scan(
            w,
            base + k * iso_sector_len(g),
            s,
            cylinder as u32,
            head as u32,
            expected_sectors,
        ) == (IsoScanEnd::Done, r),
        expected_sectors is None ==> iso_scan(
            w,
            base + k * iso_sector_len(g),
            s,
            cylinder as u32,
            head as u32,
            expected_sectors,
        ) == iso_scan(w, base + n * iso_sector_len(g), r, cylinder as u32, head as u32, expected_sectors),
    decreases n - k,
{
    let l = iso_sector_len(g);
    lemma_sectors_layout(cylinder, head, g, d, table, n);
    let items = iso_sectors_items(cylinder, head, g, d, table, n);
    assert(k * l + l <= n * l && 0 <= k * l) by (nonlinear_arith)
        requires
            k < n,
            l >= 0,
    ;
    assert((k + 1) * l == k * l + l) by (nonlinear_arith);
    let sector = (table[k as int] + 1) as u8;
    let dk = sector_data(d, table[k as int] as int);
    assert(dk.len() == 512);
    lemma_sector_ends_with_byte(cylinder, head, g, sector, dk);
    let later = items.skip(k * l);
    assert(later.len() == n * l - k * l);
    assert(later[l - 1] == items.subrange(k * l, k * l + l)[l - 1]);
    lemma_carries_part(w, base + k * l, later, 0, l);
    assert(later.subrange(0, l) =~= items.subrange(k * l, k * l + l));
    assert(items.subrange(k * l, k * l + l) == iso_sector_items(cylinder, head, g, sector, dk));
    assert(dk.len() == 512);
    assert(!has_sector(s.collected, sector as u32)) by {
        if has_sector(s.collected, sector as u32) {
            let i = choose|i: int| 0 <= i < s.collected.len() && (#[trigger] s.collected[i]).0
                == sector as u32;
            assert(table[i] < n && table[k as int] < n);
            assert(table[i] != table[k as int]);
        }
    }
    lemma_iso_sector_reads_back(w, base + k * l, cylinder, head, g, sector, dk, s, expected_sectors);
    lemma_sector_items_len(cylinder, head, g, sector, dk);
    let after = iso_state_after_sector(s, cylinder, head, g, sector, dk);
    assert(after.collected =~= table_sectors(d, table, k + 1));
    if k + 1 == n {
        if expected_sectors is Some {
            IsoScan { awaiting: (37 - g.gap3a_size - g.gap3b_size) as nat, ..after }
        } else {
            after
        }
    } else {
        assert(expected_sectors != Some(after.collected.len() as usize));
        lemma_carries_part(w, base + k * l, later, l, later.len() as int);
        assert(later.subrange(l, later.len() as int) =~= items.skip((k + 1) * l));
        lemma_sectors_scan(w, base, cylinder, head, g, d, table, n, k + 1, after, expected_sectors)
    }
}

/// Some sector of `s` has number `v`.
pub open spec fn has_key(s: Seq<(u32, Seq<u8>)>, v: int) -> bool {
    exists|i: int| 0 <= i < s.len() && #[trigger] s[i].0 == v
}

/// A sequence of `n` sectors ordered by number, whose numbers all lie in `1..=n` and take
/// every value there, numbers its sectors `1, 2, ..., n`.
proof fn lemma_sorted_keys_fill(s: Seq<(u32, Seq<u8>)>, n: nat)
    requires
        s.len() == n,
        sorted_by_index(s),
        forall|i: int| 0 <= i < n ==> 1 <= #[trigger] s[i].0 <= n,
        forall|v: int| 1 <= v <= n ==> #[trigger] has_key(s, v),
    ensures
        forall|j: int| 0 <= j < n ==> #[trigger] s[j].0 == j + 1,
{
    let f = |i: int| s[i].0 as int;
    assert forall|j: int| 0 <= j < n implies #[trigger] s[j].0 == j + 1 by {
        if s[j].0 > j + 1 {
            let before = vstd::set_lib::set_int_range(0, j);
            let keys = before.map(f);
            vstd::set_lib::lemma_int_range(0, j);
            vstd::set_lib::lemma_map_size_bound(before, keys, f);
            let wanted = vstd::set_lib::set_int_range(1, j + 2);
            vstd::set_lib::lemma_int_range(1, j + 2);
            assert(wanted.subset_of(keys)) by {
                assert forall|v: int| wanted.contains(v) implies keys.contains(v) by {
                    assert(has_key(s, v));
                    let i = choose|i: int| 0 <= i < s.len() && #[trigger] s[i].0 == v;
                    if i >= j {
                        assert(s[j].0 <= s[i].0);
                    }
                    assert(before.contains(i) && f(i) == v);
                }
            }
            vstd::set_lib::lemma_len_subset(wanted, keys);
        } else if s[j].0 < j + 1 {
            let behind = vstd::set_lib::set_int_range(j + 1, n as int);
            let keys = behind.map(f);
            vstd::set_lib::lemma_int_range(j + 1, n as int);
            vstd::set_lib::lemma_map_size_bound(behind, keys, f);
            let wanted = vstd::set_lib::set_int_range(j + 1, n as int + 1);
            vstd::set_lib::lemma_int_range(j + 1, n as int + 1);
            assert(wanted.subset_of(keys)) by {
                assert forall|v: int| wanted.contains(v) implies keys.contains(v) by {
                    assert(has_key(s, v));
                    let i = choose|i: int| 0 <= i < s.len() && #[trigger] s[i].0 == v;
                    if i <= j {
                        assert(s[i].0 <= s[j].0);
                    }
                    assert(behind.contains(i) && f(i) == v);
                }
            }
            vstd::set_lib::lemma_len_subset(wanted, keys);
        }
    }
}

/// The sectors of a track, numbered from 1, in order.
pub open spec fn ordered_sectors(d: Seq<u8>, n: nat) -> Seq<(u32, Seq<u8>)> {
    Seq::new(n, |j: int| ((j + 1) as u32, sector_data(d, j)))
}

proof fn lemma_ordered_flatten(d: Seq<u8>, n: nat)
    requires
        d.len() == 512 * n,
    ensures
        flatten_payloads(ordered_sectors(d, n)) == d,
    decreases n,
{
    if n > 0 {
        let m = (n - 1) as nat;
        let dm = d.take(512 * m as int);
        lemma_ordered_flatten(dm, m);
        assert(ordered_sectors(d, n).drop_last() =~= ordered_sectors(dm, m)) by {
            assert forall|j: int| 0 <= j < m implies sector_data(d, j) =~= sector_data(dm, j) by {
                assert(512 * j + 512 <= 512 * m) by (nonlinear_arith)
                    requires
                        j < m,
                ;
            }
        }
        assert(dm + sector_data(d, m as int) =~= d);
    }
}

/// Ordered by number, the sectors that a table holding each sector once writes are the
/// sectors in order, and their data is the track's data.
proof fn lemma_table_sectors_sorted(d: Seq<u8>, g: IsoGeometry)
    requires
        0 < g.sectors_per_track <= 255,
        targets_distinct(g.sectors_per_track as nat, g.interleaving as nat),
        d.len() == 512 * g.sectors_per_track,
    ensures
        flatten_payloads(
            sort_by_index(
                table_sectors(
                    d,
                    interleaving_table(g.sectors_per_track as nat, g.interleaving as nat),
                    g.sectors_per_track as nat,
                ),
            ),
        ) == d,
{
    let n = g.sectors_per_track as nat;
    let il = g.interleaving as nat;
    let table = interleaving_table(n, il);
    lemma_interleaving_table_permutes(n, il);
    let tc = table_sectors(d, table, n);
    let st = sort_by_index(tc);
    lemma_sort_by_index(tc);
    tc.to_multiset_ensures();
    st.to_multiset_ensures();
    assert forall|i: int| 0 <= i < n implies #[trigger] tc[i] == ((table[i] + 1) as u32, sector_data(
        d,
        table[i] as int,
    )) by {
        assert(table[i] < n);
    }
    // every sector of the sorted sequence is one of the table's
    assert forall|j: int| 0 <= j < n implies tc.contains(#[trigger] st[j]) by {
        assert(st.contains(st[j]));
        assert(st.to_multiset().count(st[j]) > 0);
        assert(tc.contains(st[j]));
    }
    assert forall|i: int| 0 <= i < n implies 1 <= #[trigger] st[i].0 <= n by {
        assert(tc.contains(st[i]));
        let t = choose|t: int| 0 <= t < tc.len() && #[trigger] tc[t] == st[i];
        assert(table[t] < n);
    }
    assert forall|v: int| 1 <= v <= n implies #[trigger] has_key(st, v) by {
        let t = interleave_target(n, il, v - 1);
        assert(0 <= t < n);
        assert(table[t] == (v - 1) as nat);
        assert(tc.contains(tc[t]));
        assert(tc.to_multiset().count(tc[t]) > 0);
        assert(st.contains(tc[t]));
        let i = choose|i: int| 0 <= i < st.len() && st[i] == tc[t];
        assert(st[i].0 == v);
    }
    lemma_sorted_keys_fill(st, n);
    assert(st =~= ordered_sectors(d, n)) by {
        assert forall|j: int| 0 <= j < n implies #[trigger] st[j] == ordered_sectors(d, n)[j] by {
            assert(tc.contains(st[j]));
            let t = choose|t: int| 0 <= t < tc.len() && #[trigger] tc[t] == st[j];
            assert(st[j].0 == j + 1);
            assert(table[t] < n);
            assert(table[t] == j);
        }
    }
    lemma_ordered_flatten(d, n);
}

/// The track parser reads back a whole track that the track generator wrote: over the words
/// that carry a generated track of the expected cylinder and head, the search starting with
/// nothing collected ends having collected every sector once, and the sectors ordered by
/// number give back the track's data. This holds where each sector is written once, that is
/// where no two sectors share a slot of the interleaving, and where the search either knows
/// the number of sectors or reads the words to their end.
pub proof fn lemma_iso_track_reads_back(
    w: Seq<MfmWord>,
    p: int,
    cylinder: u32,
    head: u32,
    g: IsoGeometry,
    d: Seq<u8>,
    s: IsoScan,
    expected_sectors: Option<usize>,
)
    requires
        cylinder < 256,
        head < 256,
        0 < g.sectors_per_track <= 255,
        targets_distinct(g.sectors_per_track as nat, g.interleaving as nat),
        gaps_nonnegative(g),
        g.gap3a_size + g.gap3b_size < 37,
        d.len() == 512 * g.sectors_per_track,
        carries_items(w, p, iso_track_items(cylinder, head, g, d)),
        s.collected.len() == 0,
        expected_sectors == Some(g.sectors_per_track) || (expected_sectors is None && p
            + iso_track_items(cylinder, head, g, d).len() == w.len()),
    ensures
        ({
            let (end, r) = iso_scan(w, p, s, cylinder, head, expected_sectors);
            &&& end == IsoScanEnd::Done
            &&& r.collected.len() == g.sectors_per_track
            &&& r.duplicates == s.duplicates
            &&& flatten_payloads(sort_by_index(r.collected)) == d
        }),
{
    let n = g.sectors_per_track as nat;
    let il = g.interleaving as nat;
    let table = interleaving_table(n, il);
    lemma_interleaving_table_permutes(n, il);
    let c8 = cylinder as u8;
    let h8 = head as u8;
    assert(c8 as u32 == cylinder && h8 as u32 == head);
    let l = iso_sector_len(g);
    assert forall|t: int| 0 <= t < n implies (#[trigger] sector_data(d, table[t] as int)).len()
        == 512 by {
        assert(table[t] < n);
        assert(512 * table[t] + 512 <= 512 * n) by (nonlinear_arith)
            requires
                table[t] < n,
        ;
    }
    lemma_sectors_layout(c8, h8, g, d, table, n);
    let gap1 = gap_items(g.gap1_size as nat, 0x4e);
    let secs = iso_sectors_items(c8, h8, g, d, table, n);
    let gap5 = gap_items(g.gap5_size as nat, 0x4e);
    let items = iso_track_items(cylinder, head, g, d);
    assert(items == gap1 + secs + gap5);
    let g1 = g.gap1_size as int;
    let end_secs = g1 + n * l;
    assert(0 <= n * l) by (nonlinear_arith)
        requires
            l >= 0,
    ;
    // the gap after the index
    assert forall|j: int| 0 <= j < g1 implies #[trigger] w[p + j] is Enc by {
        assert(items[j] == gap1[j]);
        assert(Some(w[p + j]) == read_word(items, j));
    }
    lemma_skip_bytes(w, p, g1 as nat, s, cylinder, head, expected_sectors);
    let s1 = IsoScan { awaiting: count_down(s.awaiting, g1 as nat), ..s };
    // the sectors
    lemma_carries_part(w, p, items, g1, end_secs);
    assert(items.subrange(g1, end_secs) =~= secs);
    assert(secs.skip(0 * l) =~= secs);
    assert(s1.collected =~= table_sectors(d, table, 0));
    let r = lemma_sectors_scan(w, p + g1, c8, h8, g, d, table, n, 0, s1, expected_sectors);
    assert(p + g1 + 0 * l == p + g1);
    if expected_sectors is None {
        // the gap that ends the track, up to the end of the words
        let g5 = g.gap5_size as int;
        assert forall|j: int| 0 <= j < g5 implies #[trigger] w[(p + end_secs) + j] is Enc by {
            assert(items[end_secs + j] == gap5[j]);
            assert(Some(w[p + (end_secs + j)]) == read_word(items, end_secs + j));
        }
        lemma_skip_bytes(w, p + end_secs, g5 as nat, r, cylinder, head, expected_sectors);
    }
    lemma_table_sectors_sorted(d, g);
}

/// The track parser reads back a whole generated track from the words that a new decoder
/// gives for it: the decoder gives nothing before the first three syncs, one sync word for
/// them, and then the words of the rest of the track. Over these words the search ends having
/// collected every sector once, and the sectors ordered by number give back the track's data,
/// under the same conditions as [`lemma_iso_track_reads_back`].
#[verifier::rlimit(100)]
#[verifier::spinoff_prover]
pub proof fn lemma_iso_decoded_track_reads_back(
    w: Seq<MfmWord>,
    p: int,
    cylinder: u32,
    head: u32,
    g: IsoGeometry,
    d: Seq<u8>,
    s: IsoScan,
    expected_sectors: Option<usize>,
)
    requires
        cylinder < 256,
        head < 256,
        0 < g.sectors_per_track <= 255,
        targets_distinct(g.sectors_per_track as nat, g.interleaving as nat),
        gaps_nonnegative(g),
        g.gap3a_size + g.gap3b_size < 37,
        d.len() == 512 * g.sectors_per_track,
        0 <= p < w.len(),
        w[p] == MfmWord::SyncWord,
        carries_items(
            w,
            p + 1,
            iso_track_items(cylinder, head, g, d).skip(g.gap1_size + g.gap2_size + 3),
        ),
        s.collected.len() == 0,
        expected_sectors == Some(g.sectors_per_track) || (expected_sectors is None && p + 1
            + iso_track_items(cylinder, head, g, d).len() - (g.gap1_size + g.gap2_size + 3)
            == w.len()),
    ensures
        ({
            let (end, r) = iso_scan(w, p, s, cylinder, head, expected_sectors);
            &&& end == IsoScanEnd::Done
            &&& r.collected.len() == g.sectors_per_track
            &&& r.duplicates == s.duplicates
            &&& flatten_payloads(sort_by_index(r.collected)) == d
        }),
{
    let n = g.sectors_per_track as nat;
    let il = g.interleaving as nat;
    let table = interleaving_table(n, il);
    lemma_interleaving_table_permutes(n, il);
    let c8 = cylinder as u8;
    let h8 = head as u8;
    assert(c8 as u32 == cylinder && h8 as u32 == head);
    let l = iso_sector_len(g);
    assert forall|t: int| 0 <= t < n implies (#[trigger] sector_data(d, table[t] as int)).len()
        == 512 by {
        assert(table[t] < n);
        assert(512 * table[t] + 512 <= 512 * n) by (nonlinear_arith)
            requires
                table[t] < n,
        ;
    }
    lemma_sectors_layout(c8, h8, g, d, table, n);
    let g1 = g.gap1_size as int;
    let g2 = g.gap2_size as int;
    let g5 = g.gap5_size as int;
    let secs = iso_sectors_items(c8, h8, g, d, table, n);
    let items = iso_track_items(cylinder, head, g, d);
    assert(items == gap_items(g1 as nat, 0x4e) + secs + gap_items(g5 as nat, 0x4e));
    assert(0 <= n * l && l <= n * l) by (nonlinear_arith)
        requires
            l >= 0,
            n >= 1,
    ;
    let tail = items.skip(g1 + g2 + 3);
    assert(tail.len() == n * l + g5 - g2 - 3);
    // the first sector, from its sync word on
    let sector0 = (table[0] + 1) as u8;
    let d0 = sector_data(d, table[0] as int);
    assert(d0.len() == 512);
    lemma_sector_items_len(c8, h8, g, sector0, d0);
    lemma_sector_ends_with_byte(c8, h8, g, sector0, d0);
    assert(secs.subrange(0 * l, 0 * l + l) == iso_sector_items(c8, h8, g, sector0, d0));
    let first = iso_sector_items(c8, h8, g, sector0, d0);
    assert(tail[l - g2 - 4] == first[l - 1]);
    lemma_carries_part(w, p + 1, tail, 0, l - g2 - 3);
    assert(tail.subrange(0, l - g2 - 3) =~= first.skip(g2 + 3));
    assert(!has_sector(s.collected, sector0 as u32));
    lemma_iso_sector_from_sync(w, p, c8, h8, g, sector0, d0, s, expected_sectors);
    let after0 = iso_state_after_sector(s, c8, h8, g, sector0, d0);
    assert(after0.collected =~= table_sectors(d, table, 1));
    let base = p - g2 - 2;
    assert(base + 1 * l == p + l - g2 - 2);
    if n == 1 {
        if expected_sectors is None {
            assert forall|j: int| 0 <= j < g5 implies #[trigger] w[(base + n * l) + j] is Enc by {
                let k = n * l - g2 - 3 + j;
                assert(Some(w[(p + 1) + k]) == read_word(tail, k));
                assert(tail[k] == items[g1 + n * l + j]);
                assert(items[g1 + n * l + j] == gap_items(g5 as nat, 0x4e)[j]);
            }
            lemma_skip_bytes(w, base + n * l, g5 as nat, after0, cylinder, head, expected_sectors);
        }
        assert(table_sectors(d, table, 1) == table_sectors(d, table, n));
    } else {
        // the other sectors
        let last = iso_sector_items(
            c8,
            h8,
            g,
            (table[n - 1] + 1) as u8,
            sector_data(d, table[n - 1] as int),
        );
        assert(secs.subrange((n - 1) * l, (n - 1) * l + l) == last);
        assert((n - 1) * l + l == n * l) by (nonlinear_arith);
        assert(0 <= (n - 1) * l) by (nonlinear_arith)
            requires
                n >= 1,
                l >= 0,
        ;
        lemma_sector_ends_with_byte(
            c8,
            h8,
            g,
            (table[n - 1] + 1) as u8,
            sector_data(d, table[n - 1] as int),
        );
        assert(tail[n * l - g2 - 4] == last[l - 1]);
        lemma_carries_part(w, p + 1, tail, l - g2 - 3, n * l - g2 - 3);
        assert(tail.subrange(l - g2 - 3, n * l - g2 - 3) =~= secs.skip(1 * l));
        assert(expected_sectors != Some(after0.collected.len() as usize));
        let r = lemma_sectors_scan(w, base, c8, h8, g, d, table, n, 1, after0, expected_sectors);
        if expected_sectors is None {
            assert forall|j: int| 0 <= j < g5 implies #[trigger] w[(base + n * l) + j] is Enc by {
                let k = n * l - g2 - 3 + j;
                assert(Some(w[(p + 1) + k]) == read_word(tail, k));
                assert(tail[k] == items[g1 + n * l + j]);
                assert(items[g1 + n * l + j] == gap_items(g5 as nat, 0x4e)[j]);
            }
            lemma_skip_bytes(w, base + n * l, g5 as nat, r, cylinder, head, expected_sectors);
        }
    }
    lemma_table_sectors_sorted(d, g);
}

} // verus!
