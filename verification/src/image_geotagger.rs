//! Orchestrates, for one image's field set, the lookup of a position and
//! the replacement of the positional metadata fields.

use vstd::prelude::*;

use crate::flight_geodata::{lookup_ok, FlightGeodata, GeoPosition};
use crate::metadata::{
    fields_view, merge, merge_spec, positional_fields_spec, MetadataField,
};
use crate::result::{GTError, GTResult};

verus! {

/// Applies a journey's track to images: holds the directory label the
/// patched images are written under and the track positions are looked up
/// in. The surrounding driver performs the reading and writing; this type
/// computes the replacement field sets.
pub struct ImageGeotagger {
    /// Label of the directory the surrounding driver writes results to.
    pub output_dir: String,
    /// The journey's track.
    pub flight_data: FlightGeodata,
}

impl ImageGeotagger {
    /// Pairs an output directory label with a journey's track.
    pub fn new(output_dir: String, data: FlightGeodata) -> (r: ImageGeotagger)
        ensures
            r.output_dir == output_dir,
            r.flight_data == data,
    {
        ImageGeotagger { output_dir, flight_data: data }
    }

    /// Builds the field set to re-encode: the existing fields with every
    /// positional field dropped, in their original order, then the given
    /// freshly computed fields appended.
    pub fn build_new_exif(
        &self,
        existing: Vec<MetadataField>,
        new_fields: Vec<MetadataField>,
    ) -> (r: Vec<MetadataField>)
        ensures
            r@ == merge_spec(existing@, new_fields@),
    {
        merge(existing, new_fields)
    }

    /// The computational core of patching one image: looks the capture
    /// instant up in the track, builds the six positional fields for the
    /// resolved position, and merges them over the image's existing field
    /// set. Fails exactly when the instant lies strictly outside the
    /// track's covered range.
    pub fn compute_updated_fields(&self, timestamp: i64, existing: Vec<MetadataField>) -> (r:
        GTResult<Vec<MetadataField>>)
        requires
            self.flight_data.wf(),
        ensures
            ({
                let s = self.flight_data.samples();
                &&& (r is Err <==> timestamp < s[0].timestamp || timestamp > s[s.len()
                    - 1].timestamp)
                &&& (timestamp < s[0].timestamp ==> r == Err::<Vec<MetadataField>, GTError>(
                    GTError::TooOld(s[0].timestamp),
                ))
                &&& (timestamp > s[s.len() - 1].timestamp ==> r == Err::<
                    Vec<MetadataField>,
                    GTError,
                >(GTError::TooNew(s[s.len() - 1].timestamp)))
                &&& (r is Ok ==> exists|p: GeoPosition, nf: Seq<MetadataField>|
                    #![trigger lookup_ok(s, timestamp, p), fields_view(nf)]
                    lookup_ok(s, timestamp, p) && fields_view(nf) == positional_fields_spec(p)
                        && r.unwrap()@ == merge_spec(existing@, nf))
            }),
    {
        let new_fields = match self.flight_data.get_gps_exif_from_datetime(timestamp) {
            Ok(f) => f,
            Err(e) => {
                return Err(e);
            },
        };
        let ghost nf = new_fields@;
        let merged = merge(existing, new_fields);
        proof {
            let s = self.flight_data.samples();
            let p = choose|p: GeoPosition|
                lookup_ok(s, timestamp, p) && fields_view(nf) == #[trigger] positional_fields_spec(
                    p,
                );
            assert(lookup_ok(s, timestamp, p) && fields_view(nf) == positional_fields_spec(p)
                && merged@ == merge_spec(existing@, nf));
        }
        Ok(merged)
    }
}

} // verus!
