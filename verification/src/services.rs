//! The plain message shapes exchanged with the collaborating host
//! services (the OCR cache, the reading-session stats aggregator and the
//! cloud-sync service) that drive the engine. The host's transport code
//! serializes these shapes at its edge.

use vstd::prelude::*;

verus! {

/// An OCR request for one page image.
pub struct OcrRequest {
    pub url: String,
    pub user: Option<String>,
    pub pass: Option<String>,
    pub context: String,
}

/// A request to preprocess a whole chapter.
pub struct JobRequest {
    pub base_url: String,
    pub user: Option<String>,
    pub pass: Option<String>,
    pub context: String,
    pub pages: Option<Vec<String>>,
}

/// One recorded page view.
pub struct PageViewRequest {
    pub page_url: String,
    pub context: String,
}

/// Aggregated reading statistics for one chapter context.
pub struct ChapterStats {
    pub context: String,
    pub total_reading_seconds: i64,
    pub total_pages: i64,
    pub total_characters: i64,
    pub first_read: i64,
    pub last_read: i64,
}

/// One raw page-view row.
pub struct PageViewRecord {
    pub id: i64,
    pub session_id: Option<i64>,
    pub timestamp: i64,
    pub page_url: String,
    pub context: Option<String>,
}

/// One reading-session row.
pub struct SessionRow {
    pub id: i64,
    pub context: String,
    pub started_at: i64,
    pub ended_at: Option<i64>,
    pub last_page_at: i64,
    pub reading_time_seconds: i64,
    pub pages_viewed: i64,
    pub total_characters: i64,
    pub is_active: bool,
}

/// The sync service's authentication status.
pub struct AuthStatusResponse {
    pub connected: bool,
    pub backend: String,
    pub email: Option<String>,
    pub last_sync: Option<i64>,
    pub device_id: String,
}

/// Starts an authentication flow.
pub struct StartAuthRequest {
    pub redirect_uri: String,
}

/// The query of an authentication callback.
pub struct CallbackQuery {
    pub code: String,
    pub state: Option<String>,
}

/// The reply to an authentication callback.
pub struct CallbackResponse {
    pub success: bool,
    pub message: String,
}

/// The body of a posted authentication callback.
pub struct CallbackPostBody {
    pub code: String,
    pub state: Option<String>,
    pub redirect_uri: String,
}

/// A sync push: the serialized payload and the entity tag it replaces.
pub struct PushRequest {
    pub payload: String,
    pub etag: Option<String>,
}

/// The reply to a sync push.
pub struct PushResponse {
    pub success: bool,
    pub etag: String,
    pub sync_timestamp: i64,
}

} // verus!
