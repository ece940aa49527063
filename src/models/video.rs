use vstd::prelude::*;

verus! {

/// A labelled detail line of a program or video page.
#[derive(Debug)]
pub struct Detail {
    pub detail_type: String,
    pub key: String,
    pub value: String,
}

/// An empty marker object of the metadata document.
#[derive(Debug)]
pub struct GeoprotectionClass {}

/// Image URLs of a program or video, one per layout.
#[derive(Debug)]
pub struct Images {
    pub landscape: String,
    pub portrait: String,
    pub square: String,
    pub landscape43: String,
    pub portrait43: String,
    pub portrait_logo: String,
    pub landscape_logo: String,
}

/// Description of the program that a video belongs to.
#[derive(Debug)]
pub struct ProgramInfo {
    pub id: String,
    pub name: String,
    pub channel: String,
    pub editor: String,
    pub social: Social,
    pub layout: String,
    pub onair_date: String,
    pub subtitle: String,
    pub website: String,
    pub year: String,
    pub direction: String,
    pub production: String,
    pub country: String,
    pub actors: String,
    pub presenter: String,
    pub seasons_number: String,
    pub rating: String,
    pub description: String,
    pub vanity: String,
    pub label: String,
    pub weblink: String,
    pub info_url: String,
    pub path_id: String,
    pub typology: String,
    pub typologies: Vec<Genre>,
    pub genres: Vec<Genre>,
    pub subgenres: Vec<Genre>,
    pub related: String,
    pub az: bool,
    pub play_service_inverted: bool,
    pub details: Vec<Detail>,
    pub images: Images,
    pub program_category: ProgramCategory,
    pub rights_management: RightsManagement,
    pub fmt: String,
    pub keyw: String,
    pub banner300_x250: String,
    pub banner_unico_loc: String,
    pub dfp: ProgramInfoDfp,
    pub adv: bool,
}

/// Advertising descriptors of a program.
#[derive(Debug)]
pub struct ProgramInfoDfp {
    pub escaped_name: String,
    pub label: String,
    pub escaped_genres: Vec<ProgramCategory>,
    pub escaped_typology: Vec<ProgramCategory>,
}

/// A named category of a program.
#[derive(Debug)]
pub struct ProgramCategory {
    pub id: String,
    pub name: String,
}

/// A genre or typology of a program.
#[derive(Debug)]
pub struct Genre {
    pub principal: Option<bool>,
    pub name: String,
    pub nome: String,
    pub id: String,
}

/// Rights attached to a program.
#[derive(Debug)]
pub struct RightsManagement {
    pub rights: Rights,
}

/// Offline and geographic rights.
#[derive(Debug)]
pub struct Rights {
    pub offline: GeoprotectionClass,
    pub geoprotection: GeoprotectionClass,
}

/// Contact channels of a program.
#[derive(Debug)]
pub struct Social {
    pub sms: String,
    pub phone_number: String,
    pub whatsapp: String,
    pub email: String,
}

} // verus!
