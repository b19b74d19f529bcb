//! Metadata fields, the closed set of positional tags, and the merge
//! protocol that supersedes stale positional fields with freshly computed
//! ones while preserving every unrelated field and its position.

use vstd::prelude::*;

use crate::coord::{dms_degrees, dms_minutes, dms_seconds, sat_u32, Converter};
use crate::flight_geodata::GeoPosition;
use crate::result::GTResult;

verus! {

/// Tag code of the latitude hemisphere letter field.
pub const TAG_GPS_LATITUDE_REF: u16 = 1;

/// Tag code of the latitude degree/minute/second field.
pub const TAG_GPS_LATITUDE: u16 = 2;

/// Tag code of the longitude hemisphere letter field.
pub const TAG_GPS_LONGITUDE_REF: u16 = 3;

/// Tag code of the longitude degree/minute/second field.
pub const TAG_GPS_LONGITUDE: u16 = 4;

/// Tag code of the altitude reference (sign) field.
pub const TAG_GPS_ALTITUDE_REF: u16 = 5;

/// Tag code of the altitude magnitude field.
pub const TAG_GPS_ALTITUDE: u16 = 6;

/// The closed set of six positional tags owned by the merge protocol.
pub open spec fn is_positional_tag(tag: u16) -> bool {
    ||| tag == TAG_GPS_LATITUDE_REF
    ||| tag == TAG_GPS_LATITUDE
    ||| tag == TAG_GPS_LONGITUDE_REF
    ||| tag == TAG_GPS_LONGITUDE
    ||| tag == TAG_GPS_ALTITUDE_REF
    ||| tag == TAG_GPS_ALTITUDE
}

/// Whether a tag belongs to the closed positional set.
pub fn tag_is_positional(tag: u16) -> (r: bool)
    ensures
        r == is_positional_tag(tag),
{
    tag == TAG_GPS_LATITUDE_REF || tag == TAG_GPS_LATITUDE || tag == TAG_GPS_LONGITUDE_REF
        || tag == TAG_GPS_LONGITUDE || tag == TAG_GPS_ALTITUDE_REF || tag == TAG_GPS_ALTITUDE
}

/// Payload of a metadata field: ASCII text, a list of rationals given as
/// numerator/denominator pairs, or a list of short unsigned integers.
#[derive(Clone, Debug, PartialEq, Eq)]
pub enum FieldValue {
    Ascii(Vec<u8>),
    Rational(Vec<(u32, u32)>),
    Short(Vec<u16>),
}

/// Mathematical image of a [`FieldValue`].
#[verifier::ext_equal]
pub enum FieldValueView {
    Ascii(Seq<u8>),
    Rational(Seq<(u32, u32)>),
    Short(Seq<u16>),
}

impl View for FieldValue {
    type V = FieldValueView;

    open spec fn view(&self) -> FieldValueView {
        match self {
            FieldValue::Ascii(v) => FieldValueView::Ascii(v@),
            FieldValue::Rational(v) => FieldValueView::Rational(v@),
            FieldValue::Short(v) => FieldValueView::Short(v@),
        }
    }
}

/// One metadata field: an identifying tag from a fixed external vocabulary
/// and its payload. The core never interprets field semantics beyond
/// recognizing the six positional tags.
#[derive(Clone, Debug, PartialEq, Eq)]
pub struct MetadataField {
    pub tag: u16,
    pub value: FieldValue,
}

/// Mathematical image of a [`MetadataField`].
#[verifier::ext_equal]
pub struct MetadataFieldView {
    pub tag: u16,
    pub value: FieldValueView,
}

impl View for MetadataField {
    type V = MetadataFieldView;

    open spec fn view(&self) -> MetadataFieldView {
        MetadataFieldView { tag: self.tag, value: self.value@ }
    }
}

/// The views of a sequence of fields, element by element.
pub open spec fn fields_view(s: Seq<MetadataField>) -> Seq<MetadataFieldView> {
    s.map_values(|f: MetadataField| f@)
}

/// Keeps exactly the fields whose tag is not positional.
pub open spec fn keep_pred() -> spec_fn(MetadataField) -> bool {
    |f: MetadataField| !is_positional_tag(f.tag)
}

/// What merging yields: the existing fields with every positional field
/// dropped, in their original relative order, then the new fields appended.
pub open spec fn merge_spec(
    existing: Seq<MetadataField>,
    new_fields: Seq<MetadataField>,
) -> Seq<MetadataField> {
    existing.filter(keep_pred()) + new_fields
}

/// Keeps exactly the tagged pairs whose tag is not positional.
pub open spec fn keep_pair_pred<V>() -> spec_fn((u16, V)) -> bool {
    |f: (u16, V)| !is_positional_tag(f.0)
}

/// What merging tagged pairs yields, mirroring [`merge_spec`].
pub open spec fn merge_pairs_spec<V>(
    existing: Seq<(u16, V)>,
    new_fields: Seq<(u16, V)>,
) -> Seq<(u16, V)> {
    existing.filter(keep_pair_pred()) + new_fields
}

/// Filtering a sequence extended by one element keeps the filtered prefix
/// and appends the element exactly when it satisfies the predicate.
pub proof fn lemma_filter_push<A>(s: Seq<A>, x: A, pred: spec_fn(A) -> bool)
    ensures
        s.push(x).filter(pred) == (if pred(x) {
            s.filter(pred).push(x)
        } else {
            s.filter(pred)
        }),
{
    reveal_with_fuel(Seq::filter, 2);
    assert(s.push(x).drop_last() =~= s);
    assert(s.push(x).last() == x);
    assert(s.push(x).len() == s.len() + 1);
}

/// Filtering keeps a sequence whole when every element satisfies the
/// predicate.
pub proof fn lemma_filter_all<A>(s: Seq<A>, pred: spec_fn(A) -> bool)
    requires
        forall|i: int| 0 <= i < s.len() ==> pred(#[trigger] s[i]),
    ensures
        s.filter(pred) == s,
    decreases s.len(),
{
    if s.len() == 0 {
        assert(s.filter(pred) =~= s);
    } else {
        assert(forall|i: int|
            0 <= i < s.drop_last().len() ==> pred(#[trigger] s.drop_last()[i])) by {
            assert(forall|i: int| 0 <= i < s.drop_last().len() ==> s.drop_last()[i] == s[i]);
        }
        lemma_filter_all(s.drop_last(), pred);
        assert(pred(s.last()));
        assert(s.drop_last().push(s.last()) =~= s);
        lemma_filter_push(s.drop_last(), s.last(), pred);
    }
}

/// Filtering empties a sequence when no element satisfies the predicate.
pub proof fn lemma_filter_none<A>(s: Seq<A>, pred: spec_fn(A) -> bool)
    requires
        forall|i: int| 0 <= i < s.len() ==> !pred(#[trigger] s[i]),
    ensures
        s.filter(pred) == Seq::<A>::empty(),
    decreases s.len(),
{
    if s.len() == 0 {
        assert(s.filter(pred) =~= Seq::<A>::empty());
    } else {
        assert(forall|i: int|
            0 <= i < s.drop_last().len() ==> !pred(#[trigger] s.drop_last()[i])) by {
            assert(forall|i: int| 0 <= i < s.drop_last().len() ==> s.drop_last()[i] == s[i]);
        }
        lemma_filter_none(s.drop_last(), pred);
        assert(!pred(s.last()));
        assert(s.drop_last().push(s.last()) =~= s);
        lemma_filter_push(s.drop_last(), s.last(), pred);
    }
}

/// Merges an existing field set with freshly computed fields: drops every
/// existing field whose tag is positional, keeps all other fields in their
/// relative order, and appends the new fields at the end.
pub fn merge(existing: Vec<MetadataField>, new_fields: Vec<MetadataField>) -> (r: Vec<
    MetadataField,
>)
    ensures
        r@ == merge_spec(existing@, new_fields@),
{
    let ghost orig = existing@;
    let mut rest = existing;
    let mut out: Vec<MetadataField> = Vec::new();
    proof {
        assert(orig.take(0) =~= Seq::<MetadataField>::empty());
        assert(orig.skip(0) =~= orig);
        assert(out@ =~= orig.take(0).filter(keep_pred()));
    }
    while rest.len() > 0
        invariant
            rest.len() <= orig.len(),
            rest@ == orig.skip(orig.len() - rest.len()),
            out@ == orig.take(orig.len() - rest.len()).filter(keep_pred()),
        decreases rest.len(),
    {
        let ghost i = orig.len() - rest.len();
        let f = rest.remove(0);
        proof {
            assert(f == orig[i]);
            assert(rest@ =~= orig.skip(i + 1));
            assert(orig.take(i + 1) =~= orig.take(i).push(orig[i]));
            lemma_filter_push(orig.take(i), orig[i], keep_pred());
        }
        if !tag_is_positional(f.tag) {
            out.push(f);
        }
    }
    proof {
        assert(orig.take(orig.len() as int) =~= orig);
    }
    let mut tail = new_fields;
    out.append(&mut tail);
    out
}

/// Merges tagged pairs carrying an arbitrary payload, by the same protocol
/// as [`merge`]: the payload rides along untouched, so a caller can thread
/// whole externally sourced fields through the merge.
pub fn merge_pairs<V>(existing: Vec<(u16, V)>, new_fields: Vec<(u16, V)>) -> (r: Vec<(u16, V)>)
    ensures
        r@ == merge_pairs_spec(existing@, new_fields@),
{
    let ghost orig = existing@;
    let mut rest = existing;
    let mut out: Vec<(u16, V)> = Vec::new();
    proof {
        assert(orig.take(0) =~= Seq::<(u16, V)>::empty());
        assert(orig.skip(0) =~= orig);
        assert(out@ =~= orig.take(0).filter(keep_pair_pred()));
    }
    while rest.len() > 0
        invariant
            rest.len() <= orig.len(),
            rest@ == orig.skip(orig.len() - rest.len()),
            out@ == orig.take(orig.len() - rest.len()).filter(keep_pair_pred()),
        decreases rest.len(),
    {
        let ghost i = orig.len() - rest.len();
        let f = rest.remove(0);
        proof {
            assert(f == orig[i]);
            assert(rest@ =~= orig.skip(i + 1));
            assert(orig.take(i + 1) =~= orig.take(i).push(orig[i]));
            lemma_filter_push(orig.take(i), orig[i], keep_pair_pred());
        }
        if !tag_is_positional(f.0) {
            out.push(f);
        }
    }
    proof {
        assert(orig.take(orig.len() as int) =~= orig);
    }
    let mut tail = new_fields;
    out.append(&mut tail);
    out
}

/// The hemisphere byte a latitude field carries: `N` (78) at or north of
/// the equator, else `S` (83).
pub open spec fn lat_ref_byte(latitude: int) -> u8 {
    if latitude >= 0 {
        78u8
    } else {
        83u8
    }
}

/// The hemisphere byte a longitude field carries: `E` (69) at or east of
/// the prime meridian, else `W` (87).
pub open spec fn lon_ref_byte(longitude: int) -> u8 {
    if longitude >= 0 {
        69u8
    } else {
        87u8
    }
}

/// The altitude reference flag: zero at or above sea level, one below.
pub open spec fn alt_ref_flag(altitude: int) -> u16 {
    if altitude >= 0 {
        0u16
    } else {
        1u16
    }
}

/// The magnitude of an altitude.
pub open spec fn alt_magnitude(altitude: int) -> int {
    if altitude >= 0 {
        altitude
    } else {
        -altitude
    }
}

/// The rational triple a coordinate field carries: whole degrees over one,
/// whole minutes over one, and the exact seconds rational in lowest terms.
pub open spec fn dms_rationals(coord: int) -> Seq<(u32, u32)> {
    seq![
        ((sat_u32(dms_degrees(coord)) as u32), 1u32),
        ((dms_minutes(coord) as u32), 1u32),
        ((dms_seconds(coord).0 as u32), (dms_seconds(coord).1 as u32)),
    ]
}

/// The six positional fields computed for a position, in their fixed
/// order: latitude reference, latitude, longitude reference, longitude,
/// altitude reference, altitude.
pub open spec fn positional_fields_spec(p: GeoPosition) -> Seq<MetadataFieldView> {
    seq![
        (MetadataFieldView {
            tag: TAG_GPS_LATITUDE_REF,
            value: FieldValueView::Ascii(seq![lat_ref_byte(p.latitude as int)]),
        }),
        (MetadataFieldView {
            tag: TAG_GPS_LATITUDE,
            value: FieldValueView::Rational(dms_rationals(p.latitude as int)),
        }),
        (MetadataFieldView {
            tag: TAG_GPS_LONGITUDE_REF,
            value: FieldValueView::Ascii(seq![lon_ref_byte(p.longitude as int)]),
        }),
        (MetadataFieldView {
            tag: TAG_GPS_LONGITUDE,
            value: FieldValueView::Rational(dms_rationals(p.longitude as int)),
        }),
        (MetadataFieldView {
            tag: TAG_GPS_ALTITUDE_REF,
            value: FieldValueView::Short(seq![alt_ref_flag(p.altitude as int)]),
        }),
        (MetadataFieldView {
            tag: TAG_GPS_ALTITUDE,
            value: FieldValueView::Rational(
                seq![((alt_magnitude(p.altitude as int) as u32), 1u32)],
            ),
        }),
    ]
}

/// Builds the six positional fields for a position: the two hemisphere
/// letters, the two degree/minute/second rational triples, the altitude
/// reference flag and the altitude magnitude. Fails exactly when the
/// altitude magnitude does not fit the unsigned target range.
pub fn build_positional_fields(position: &GeoPosition) -> (r: GTResult<Vec<MetadataField>>)
    ensures
        r is Ok <==> alt_magnitude(position.altitude as int) <= u32::MAX,
        r is Err ==> r->Err_0 is Conversion,
        r is Ok ==> r.unwrap()@.len() == 6,
        r is Ok ==> fields_view(r.unwrap()@) == positional_fields_spec(*position),
        r is Ok ==> forall|i: int|
            0 <= i < r.unwrap()@.len() ==> is_positional_tag((#[trigger] r.unwrap()@[i]).tag),
{
    let lat_ref_field = MetadataField {
        tag: TAG_GPS_LATITUDE_REF,
        value: FieldValue::Ascii(vec![Converter::latitude_ref(position.latitude)]),
    };
    let (lat_d, lat_m, lat_s) = Converter::try_coord_to_dms(position.latitude).unwrap();
    let lat_field = MetadataField {
        tag: TAG_GPS_LATITUDE,
        value: FieldValue::Rational(vec![(lat_d, 1u32), (lat_m, 1u32), (lat_s.0, lat_s.1)]),
    };
    let lon_ref_field = MetadataField {
        tag: TAG_GPS_LONGITUDE_REF,
        value: FieldValue::Ascii(vec![Converter::longitude_ref(position.longitude)]),
    };
    let (lon_d, lon_m, lon_s) = Converter::try_coord_to_dms(position.longitude).unwrap();
    let lon_field = MetadataField {
        tag: TAG_GPS_LONGITUDE,
        value: FieldValue::Rational(vec![(lon_d, 1u32), (lon_m, 1u32), (lon_s.0, lon_s.1)]),
    };
    let (alt_flag, alt_mag) = match Converter::encode_altitude(position.altitude) {
        Ok(v) => v,
        Err(e) => {
            return Err(e);
        },
    };
    let alt_ref_field = MetadataField {
        tag: TAG_GPS_ALTITUDE_REF,
        value: FieldValue::Short(vec![alt_flag]),
    };
    let alt_field = MetadataField {
        tag: TAG_GPS_ALTITUDE,
        value: FieldValue::Rational(vec![(alt_mag, 1u32)]),
    };
    let mut out: Vec<MetadataField> = Vec::new();
    out.push(lat_ref_field);
    out.push(lat_field);
    out.push(lon_ref_field);
    out.push(lon_field);
    out.push(alt_ref_field);
    out.push(alt_field);
    proof {
        assert(fields_view(out@) =~~= positional_fields_spec(*position));
    }
    Ok(out)
}

/// Merging is a replacement, not an accumulation. When every new field is
/// positional, the positional fields of the merged set are exactly the new
/// fields, and merging the same new fields a second time changes nothing.
pub proof fn lemma_merge_replaces_positional(
    existing: Seq<MetadataField>,
    new_fields: Seq<MetadataField>,
)
    requires
        forall|i: int|
            0 <= i < new_fields.len() ==> is_positional_tag(#[trigger] new_fields[i].tag),
    ensures
        merge_spec(existing, new_fields).filter(
            |f: MetadataField| is_positional_tag(f.tag),
        ) == new_fields,
        merge_spec(merge_spec(existing, new_fields), new_fields) == merge_spec(
            existing,
            new_fields,
        ),
{
    let pos = |f: MetadataField| is_positional_tag(f.tag);
    let kept = existing.filter(keep_pred());
    broadcast use vstd::seq_lib::group_filter_ensures;

    Seq::filter_distributes_over_add(kept, new_fields, pos);
    assert(forall|i: int| 0 <= i < kept.len() ==> !pos(#[trigger] kept[i])) by {
        assert(forall|i: int| 0 <= i < kept.len() ==> keep_pred()(#[trigger] kept[i]));
    }
    lemma_filter_none(kept, pos);
    lemma_filter_all(new_fields, pos);
    assert(merge_spec(existing, new_fields).filter(pos) =~= new_fields);

    Seq::filter_distributes_over_add(kept, new_fields, keep_pred());
    lemma_filter_all(kept, keep_pred());
    assert(forall|i: int| 0 <= i < new_fields.len() ==> !keep_pred()(#[trigger] new_fields[i]));
    lemma_filter_none(new_fields, keep_pred());
    assert(merge_spec(merge_spec(existing, new_fields), new_fields) =~= merge_spec(
        existing,
        new_fields,
    ));
}

} // verus!
