//! Three-way merge of playlist orders. Each track id is treated as one
//! atomic line; an off-the-shelf line merge reconciles the two sides
//! against their common ancestor, and the merge identities are proved:
//! an unchanged device yields the local order, an unchanged source yields
//! the device order.

use vstd::prelude::*;
use crate::source::TrackId;
use crate::numfmt::{dec_of, parse_dec, parse_u64_dec, u64_to_dec};
use crate::lines::{lemma_split_nl_line, split_lines, split_nl};

verus! {

/// Track ids as merge atoms: one decimal per line, each line terminated.
pub open spec fn enc_ids(ids: Seq<TrackId>) -> Seq<char>
    decreases ids.len(),
{
    if ids.len() == 0 {
        Seq::empty()
    } else {
        dec_of(ids[0].0 as nat) + seq!['\n'] + enc_ids(ids.drop_first())
    }
}

proof fn lemma_enc_ids_push(ids: Seq<TrackId>, x: TrackId)
    ensures
        enc_ids(ids.push(x)) =~= enc_ids(ids) + dec_of(x.0 as nat) + seq!['\n'],
    decreases ids.len(),
{
    assert(ids.push(x).len() > 0);
    assert(enc_ids(ids.push(x)) == dec_of(ids.push(x)[0].0 as nat) + seq!['\n'] + enc_ids(
        ids.push(x).drop_first(),
    ));
    if ids.len() == 0 {
        assert(ids.push(x).drop_first() =~= Seq::<TrackId>::empty());
        assert(ids.push(x)[0] == x);
        assert(enc_ids(Seq::<TrackId>::empty()) =~= Seq::<char>::empty());
    } else {
        lemma_enc_ids_push(ids.drop_first(), x);
        assert(ids.push(x).drop_first() =~= ids.drop_first().push(x));
        assert(ids.push(x)[0] == ids[0]);
    }
}

/// Encode ids for the line merge.
fn encode_ids(ids: &Vec<TrackId>) -> (r: String)
    ensures
        r@ == enc_ids(ids@),
{
    let mut out = String::new();
    let mut i: usize = 0;
    while i < ids.len()
        invariant
            i <= ids@.len(),
            out@ =~= enc_ids(ids@.subrange(0, i as int)),
        decreases ids@.len() - i,
    {
        let line = u64_to_dec(ids[i].0);
        out.append(line.as_str());
        out.append("\n");
        proof {
            reveal_strlit("\n");
            assert("\n"@ =~= seq!['\n']);
            lemma_enc_ids_push(ids@.subrange(0, i as int), ids@[i as int]);
            assert(ids@.subrange(0, i + 1) =~= ids@.subrange(0, i as int).push(ids@[i as int]));
        }
        i += 1;
    }
    proof {
        assert(ids@.subrange(0, ids@.len() as int) =~= ids@);
    }
    out
}

/// The ids found on the parseable lines, in order; other lines (conflict
/// markers included) are dropped.
pub open spec fn parsed_ids(lines: Seq<Seq<char>>) -> Seq<TrackId>
    decreases lines.len(),
{
    if lines.len() == 0 {
        Seq::empty()
    } else {
        let rest = parsed_ids(lines.drop_first());
        match parse_dec(lines[0]) {
            Some(n) => seq![TrackId(n)] + rest,
            None => rest,
        }
    }
}

/// The ids decoded from a merged text.
pub open spec fn dec_ids_of(s: Seq<char>) -> Seq<TrackId> {
    parsed_ids(split_nl(s))
}

/// Decode a merged text back to ids.
fn decode_ids(s: &str) -> (r: Vec<TrackId>)
    ensures
        r@ == dec_ids_of(s@),
{
    let lines = split_lines(s);
    let ghost lv = lines.deep_view();
    let mut out: Vec<TrackId> = Vec::new();
    let mut i: usize = 0;
    proof {
        assert(lv.skip(0) =~= lv);
    }
    while i < lines.len()
        invariant
            i <= lines@.len(),
            lv == lines.deep_view(),
            lv == split_nl(s@),
            parsed_ids(lv) =~= out@ + parsed_ids(lv.skip(i as int)),
        decreases lines@.len() - i,
    {
        proof {
            assert(lv.skip(i as int)[0] == lv[i as int]);
            assert(lv.skip(i as int).drop_first() =~= lv.skip(i + 1));
            assert(lines.deep_view()[i as int] == lines@[i as int]@);
        }
        match parse_u64_dec(lines[i].as_str()) {
            Some(n) => {
                out.push(TrackId(n));
            },
            None => {},
        }
        i += 1;
    }
    proof {
        assert(lv.skip(lv.len() as int) =~= Seq::empty());
        assert(out@ =~= parsed_ids(lv));
    }
    out
}

/// Decoding an encoded id list gives the list back.
proof fn lemma_codec_round_trip(ids: Seq<TrackId>)
    ensures
        dec_ids_of(enc_ids(ids)) == ids,
    decreases ids.len(),
{
    if ids.len() == 0 {
        let e: Seq<char> = Seq::empty();
        assert(split_nl(enc_ids(ids)) =~~= seq![e]);
        assert(seq![e][0] == e);
        assert(!crate::numfmt::all_digits(e));
        assert(parse_dec(e) is None);
        assert(parsed_ids(seq![e]) == parsed_ids(seq![e].drop_first()));
        assert(seq![e].drop_first() =~= Seq::<Seq<char>>::empty());
        assert(parsed_ids(Seq::<Seq<char>>::empty()) == Seq::<TrackId>::empty());
        assert(dec_ids_of(enc_ids(ids)) =~= Seq::<TrackId>::empty());
    } else {
        let line = dec_of(ids[0].0 as nat);
        crate::numfmt::lemma_dec_round_trip(ids[0].0);
        assert(forall|i: int| 0 <= i < line.len() ==> line[i] != '\n') by {
            assert(crate::numfmt::all_digits(line));
            assert(forall|i: int|
                0 <= i < line.len() ==> '0' <= #[trigger] line[i] <= '9' && '\n' as int == 10);
        }
        lemma_split_nl_line(line, enc_ids(ids.drop_first()));
        assert(enc_ids(ids) =~= line + seq!['\n'] + enc_ids(ids.drop_first()));
        lemma_codec_round_trip(ids.drop_first());
        let sp = split_nl(enc_ids(ids));
        assert(sp =~~= seq![line] + split_nl(enc_ids(ids.drop_first())));
        assert(sp[0] == line);
        assert(sp.drop_first() =~~= split_nl(enc_ids(ids.drop_first())));
        assert(parsed_ids(sp) =~= seq![TrackId(ids[0].0)] + parsed_ids(sp.drop_first()));
        assert(TrackId(ids[0].0) == ids[0]);
        assert(parsed_ids(sp) =~= ids);
    }
}

/// What `diffy::merge` returns for three texts: the merged text on a clean
/// merge, nothing on a conflict. A function of the three texts alone.
pub uninterp spec fn merged_of(ancestor: Seq<char>, ours: Seq<char>, theirs: Seq<char>) -> Option<
    Seq<char>,
>;

/// Relies on `diffy::merge`: a line-level three-way merge, `Ok` exactly on
/// a conflict-free merge. When one side equals the ancestor, every hunk
/// comes from the other side and diffy resolves the region to that side
/// (its conflict clean-up keeps the changed side whenever the other
/// matches the ancestor), so the merge returns the other side's text
/// unchanged.
#[verifier::external_body]
fn merge_texts(ancestor: &str, ours: &str, theirs: &str) -> (r: Result<String, String>)
    ensures
        r matches Ok(s) ==> merged_of(ancestor@, ours@, theirs@) == Some(s@) && (ours@
            == ancestor@ ==> s@ == theirs@) && (theirs@ == ancestor@ ==> s@ == ours@),
        r matches Err(e) ==> merged_of(ancestor@, ours@, theirs@) is None && ours@ != ancestor@
            && theirs@ != ancestor@,
{
    diffy::merge(ancestor, ours, theirs)
}

/// The merged order for three id lists, as the engine computes it: the
/// clean merge, or, on a conflict, the local order -- the source wins,
/// deterministically, as it does for ratings.
pub open spec fn merged_ids(
    ancestor: Seq<TrackId>,
    local: Seq<TrackId>,
    device: Seq<TrackId>,
) -> Seq<TrackId> {
    match merged_of(enc_ids(ancestor), enc_ids(local), enc_ids(device)) {
        Some(s) => dec_ids_of(s),
        None => local,
    }
}

/// Merge the device's edit of a playlist with the source's current order
/// against the order recorded at the previous sync. A two-sided conflict
/// keeps the source's order; the engine never asks the user.
///
/// The merge is the identity on an unchanged side: if the device still
/// holds the ancestor order the result is the local order, and if the
/// source still holds the ancestor order the result is the device order.
pub fn three_way_merge(ancestor: &Vec<TrackId>, local: &Vec<TrackId>, device: &Vec<TrackId>) -> (r:
    Vec<TrackId>)
    ensures
        r@ == merged_ids(ancestor@, local@, device@),
        device@ == ancestor@ ==> r@ == local@,
        local@ == ancestor@ ==> r@ == device@,
{
    let a = encode_ids(ancestor);
    let l = encode_ids(local);
    let d = encode_ids(device);
    let r = match merge_texts(a.as_str(), l.as_str(), d.as_str()) {
        Ok(merged) => decode_ids(merged.as_str()),
        Err(conflict) => {
            // A genuine two-sided conflict: favour the source's order.
            crate::sync::clone_ids(local)
        },
    };
    proof {
        if device@ == ancestor@ {
            lemma_codec_round_trip(local@);
        }
        if local@ == ancestor@ {
            lemma_codec_round_trip(device@);
        }
    }
    r
}


} // verus!
