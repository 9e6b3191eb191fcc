//! Data shapes of the platform's responses, modelled with plain values:
//! mappings arrive as vectors of key/value pairs in response order.

use vstd::prelude::*;

verus! {

/// The closed set of audio encodings a release can offer.
#[allow(non_camel_case_types)]
#[derive(Clone, Copy, Debug, PartialEq, Eq, Hash, Structural)]
pub enum DownloadFormat {
    Mp3_V0,
    Mp3_320,
    Flac,
    Aac,
    Vorbis,
    Alac,
    Wav,
    AiffLossless,
}

/// The wire name of each encoding.
pub open spec fn spec_format_name(f: DownloadFormat) -> Seq<char> {
    match f {
        DownloadFormat::Mp3_V0 => "mp3-v0"@,
        DownloadFormat::Mp3_320 => "mp3-320"@,
        DownloadFormat::Flac => "flac"@,
        DownloadFormat::Aac => "aac-hi"@,
        DownloadFormat::Vorbis => "vorbis"@,
        DownloadFormat::Alac => "alac"@,
        DownloadFormat::Wav => "wav"@,
        DownloadFormat::AiffLossless => "aiff-lossless"@,
    }
}

/// The requested format was not a known wire name.
#[derive(Debug)]
pub struct ParseDownloadFormatError;

impl DownloadFormat {
    /// The wire name of this encoding.
    pub fn format_name(&self) -> (r: String)
        ensures
            r@ == spec_format_name(*self),
    {
        match self {
            DownloadFormat::Mp3_V0 => "mp3-v0".to_owned(),
            DownloadFormat::Mp3_320 => "mp3-320".to_owned(),
            DownloadFormat::Flac => "flac".to_owned(),
            DownloadFormat::Aac => "aac-hi".to_owned(),
            DownloadFormat::Vorbis => "vorbis".to_owned(),
            DownloadFormat::Alac => "alac".to_owned(),
            DownloadFormat::Wav => "wav".to_owned(),
            DownloadFormat::AiffLossless => "aiff-lossless".to_owned(),
        }
    }

    /// Reads an encoding from its wire name; succeeds exactly on the eight
    /// known names.
    pub fn from_name(s: &str) -> (r: Result<DownloadFormat, ParseDownloadFormatError>)
        ensures
            r is Ok <==> (exists|f: DownloadFormat| spec_format_name(f) == s@),
            r is Ok ==> spec_format_name(r->Ok_0) == s@,
    {
        if crate::text::str_eq(s, "mp3-v0") {
            proof {
                assert(spec_format_name(DownloadFormat::Mp3_V0) == s@);
            }
            Ok(DownloadFormat::Mp3_V0)
        } else if crate::text::str_eq(s, "mp3-320") {
            proof {
                assert(spec_format_name(DownloadFormat::Mp3_320) == s@);
            }
            Ok(DownloadFormat::Mp3_320)
        } else if crate::text::str_eq(s, "flac") {
            proof {
                assert(spec_format_name(DownloadFormat::Flac) == s@);
            }
            Ok(DownloadFormat::Flac)
        } else if crate::text::str_eq(s, "aac-hi") {
            proof {
                assert(spec_format_name(DownloadFormat::Aac) == s@);
            }
            Ok(DownloadFormat::Aac)
        } else if crate::text::str_eq(s, "vorbis") {
            proof {
                assert(spec_format_name(DownloadFormat::Vorbis) == s@);
            }
            Ok(DownloadFormat::Vorbis)
        } else if crate::text::str_eq(s, "alac") {
            proof {
                assert(spec_format_name(DownloadFormat::Alac) == s@);
            }
            Ok(DownloadFormat::Alac)
        } else if crate::text::str_eq(s, "wav") {
            proof {
                assert(spec_format_name(DownloadFormat::Wav) == s@);
            }
            Ok(DownloadFormat::Wav)
        } else if crate::text::str_eq(s, "aiff-lossless") {
            proof {
                assert(spec_format_name(DownloadFormat::AiffLossless) == s@);
            }
            Ok(DownloadFormat::AiffLossless)
        } else {
            proof {
                assert forall|f: DownloadFormat| spec_format_name(f) != s@ by {}
            }
            Err(ParseDownloadFormatError)
        }
    }
}

impl core::str::FromStr for DownloadFormat {
    type Err = ParseDownloadFormatError;

    fn from_str(s: &str) -> Result<DownloadFormat, ParseDownloadFormatError> {
        DownloadFormat::from_name(s)
    }
}

/// One downloadable asset in one encoding.
#[derive(Debug)]
pub struct DownloadData {
    pub size_mb: Option<String>,
    pub description: String,
    pub encoding_name: String,
    pub url: String,
}

/// One purchased release with its digital downloads.
#[derive(Debug)]
pub struct DigitalItem {
    /// The assets on offer, at most one per encoding.
    pub downloads: Option<Vec<(DownloadFormat, DownloadData)>>,
    pub package_release_date: Option<String>,
    pub title: String,
    pub artist: String,
    pub download_type: String,
    pub download_type_str: String,
    pub item_type: String,
    pub art_id: i64,
}

/// The payload embedded in a release page.
#[derive(Debug)]
pub struct ParsedBandcampData {
    pub digital_items: Vec<DigitalItem>,
}

/// The payload of the stat polling endpoint.
#[derive(Debug)]
pub struct ParsedStatDownload {
    pub result: Option<String>,
    pub download_url: Option<String>,
    pub url: String,
}

/// One page of the paginated collection endpoint.
#[derive(Debug)]
pub struct ParsedCollectionItems {
    pub more_available: bool,
    pub last_token: Option<String>,
    pub redownload_urls: Option<Vec<(String, String)>>,
}

/// One entry of the summary's item lookup.
#[derive(Debug)]
pub struct TrAlbumLookupItem {
    pub item_type: String,
    pub item_id: i64,
    pub band_id: i64,
    pub purchased: String,
}

/// The fan's collection summary.
#[derive(Debug)]
pub struct FanCollectionSummary {
    pub fan_id: i64,
    pub username: String,
    pub url: String,
    pub tralbum_lookup: Option<Vec<(String, TrAlbumLookupItem)>>,
    pub followers: Option<Vec<()>>,
}

/// The summary response: the fan and one sample of the collection.
#[derive(Debug)]
pub struct ParsedFanCollectionSummary {
    pub fan_id: i64,
    pub collection_summary: FanCollectionSummary,
}

#[derive(Debug)]
pub struct FanData {
    pub fan_id: i64,
}

#[derive(Debug)]
pub struct CachedItem {
    pub sale_item_id: i64,
    pub band_name: String,
    pub item_title: String,
}

#[derive(Debug)]
pub struct ItemCache {
    pub collection: Vec<(String, CachedItem)>,
    pub hidden: Vec<(String, CachedItem)>,
}

#[derive(Debug)]
pub struct CollectionData {
    pub batch_size: i64,
    pub item_count: Option<i64>,
    pub last_token: Option<String>,
    pub redownload_urls: Option<Vec<(String, String)>>,
}

/// A fan page's embedded payload.
#[derive(Debug)]
pub struct ParsedFanpageData {
    pub fan_data: FanData,
    pub collection_data: CollectionData,
    pub hidden_data: CollectionData,
    pub item_cache: ItemCache,
}

} // verus!
