use vstd::prelude::*;

verus! {

/// View, comment, list and like counts of one video.
#[derive(Clone, Debug)]
pub struct VideoCount {
    pub view: i32,
    pub comment: i32,
    pub mylist: i32,
    pub like: i32,
}

/// The thumbnail locations of one video.
#[derive(Clone, Debug)]
#[allow(non_snake_case)]
pub struct VideoThumbnail {
    pub url: String,
    pub middleUrl: Option<String>,
    pub largeUrl: Option<String>,
}

/// The age rating of one video.
#[derive(Clone, Debug)]
#[allow(non_snake_case)]
pub struct VideoRating {
    pub isAdult: bool,
}

/// What the viewing account has done with one video.
#[derive(Clone, Debug)]
#[allow(non_snake_case)]
pub struct VideoViewerLike {
    pub isLiked: bool,
}

/// The viewing account's relation to one video.
#[derive(Clone, Debug)]
#[allow(non_snake_case)]
pub struct VideoViewer {
    pub isOwner: bool,
    pub like: VideoViewerLike,
}

/// The metadata of one video, as the watch page's embedded descriptor
/// carries it.
#[derive(Clone, Debug)]
#[allow(non_snake_case)]
pub struct Video {
    pub _9d091f87: Option<bool>,
    pub count: VideoCount,
    pub duration: i32,
    pub description: String,
    pub id: String,
    pub isPrivate: Option<bool>,
    pub isDeleted: Option<bool>,
    pub isNoBanner: Option<bool>,
    pub isAuthenticationRequired: Option<bool>,
    pub isEmbedPlayerAllowed: Option<bool>,
    pub isGiftAllowed: Option<bool>,
    pub rating: Option<VideoRating>,
    pub registeredAt: String,
    pub thumbnail: VideoThumbnail,
    pub title: String,
    pub viewer: Option<VideoViewer>,
    pub watchableUserTypeForPayment: Option<String>,
    pub commentableUserTypeForPayment: Option<String>,
}

/// The metadata of one series and the videos it lists.
#[derive(Clone, Debug)]
pub struct Series {
    pub id: i64,
    pub owner: i64,
    pub owner_name: String,
    pub title: String,
    pub description: String,
    pub decorated_description_html: String,
    pub thumbnail_url: String,
    pub is_listed: bool,
    pub created_at: String,
    pub updated_at: String,
    pub items: Vec<String>,
}

} // verus!
