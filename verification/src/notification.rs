//! Notifications, from what comes over DBus to what is shown.
use crate::path::path_from;
use crate::table::Table;
use crate::text::{capitalize, to_hex, to_lowercase};
use crate::wrap::{can_wrap_with, load_english, word_wrap, DictionaryError};
use std::path::PathBuf;
use vstd::prelude::*;
use vstd::string::StringExecFns;

verus! {

/// The name of the file that the notifications are written to.
pub const NOTIFICATIONS_FILE: &'static str = "notifications.json";

/// How many notifications of one application are kept.
pub const NOTIFICATION_LIMIT: usize = 32;

/// How many columns the lines of a notification may take.
pub const LINE_LENGTH: usize = 36;

/// The directory of the images that come with notifications.
pub const IMAGE_PATH: &'static str = "/tmp/deskctrl/images";

/// The directory of the file that the notifications are written to.
pub const DATA_PATH: &'static str = "/tmp/deskctrl/data";

/// A picture that came as raw pixels: rows of three bytes for each pixel, or of four if there is an
/// alpha channel.
#[derive(Clone, PartialEq, Debug)]
pub struct ImageData {
    pub width: i32,
    pub height: i32,
    pub row_stride: i32,
    pub has_alpha: bool,
    pub bits_per_sample: i32,
    pub channels: i32,
    pub data: Vec<u8>,
}

/// The value of a hint, as far as it is read.
#[derive(Clone, PartialEq, Debug)]
pub enum HintValue {
    Text(String),
    Image(ImageData),
    /// Anything else, written out.
    Other(String),
}

/// A notification as it comes over DBus.
#[derive(Clone, PartialEq, Debug)]
pub struct DBusNotification {
    pub app_name: String,
    pub replaces_id: u32,
    pub app_icon: String,
    pub summary: String,
    pub body: String,
    pub actions: Vec<String>,
    pub hints: Table<HintValue>,
    pub expire_timeout: i32,
}

impl Default for DBusNotification {
    fn default() -> (received: Self)
        ensures
            received.app_name@ == Seq::<char>::empty(),
            received.replaces_id == 0,
            received.app_icon@ == Seq::<char>::empty(),
            received.summary@ == Seq::<char>::empty(),
            received.body@ == Seq::<char>::empty(),
            received.actions@ == Seq::<String>::empty(),
            received.hints.wf(),
            received.hints@ == Map::<Seq<char>, HintValue>::empty(),
            received.expire_timeout == 0,
    {
        DBusNotification {
            app_name: String::new(),
            replaces_id: 0,
            app_icon: String::new(),
            summary: String::new(),
            body: String::new(),
            actions: Vec::new(),
            hints: Table::new(),
            expire_timeout: 0,
        }
    }
}

/// A notification as it is shown.
#[derive(Clone, PartialEq, Eq, PartialOrd, Ord, Hash, Debug)]
pub struct EwwNotification {
    pub id: u32,
    pub timestamp: u64,
    pub app_name: String,
    /// Only used to find the notifications of a window.
    pub app_class: String,
    pub summary: String,
    pub body: String,
    pub app_icon: Option<PathBuf>,
    pub image_path: Option<PathBuf>,
    /// Whether the image was written to disk for this notification.
    pub tmp_image: bool,
}

/// How the pixels of a picture are laid out.
#[derive(Copy, Clone, PartialEq, Eq, Structural, PartialOrd, Ord, Hash, Debug, Default)]
pub struct PixbufConfig {
    pub width: i32,
    pub height: i32,
    pub row_stride: i32,
    pub has_alpha: bool,
}

/// Where the image of a notification comes from.
#[derive(Debug)]
pub enum ImagePlan {
    /// It has none.
    Nothing,
    /// It is in a file.
    File(String),
    /// It is made of these pixels, and has to be written to a file first.
    Pixels(PixbufConfig, Vec<u8>),
}

/// A hint that does not hold what its name says.
#[derive(Copy, Clone, PartialEq, Eq, Structural, Debug)]
pub enum HintError {
    /// It should hold the pixels of a picture.
    ImageData,
    /// It should hold the path of a picture.
    ImagePath,
}

impl HintError {
    /// What is reported of the error.
    pub open spec fn text(self) -> Seq<char> {
        match self {
            HintError::ImageData => "Failed to deserialize image data to tuple (iiibiiay)"@,
            HintError::ImagePath => "Failed to convert image path to String (s)"@,
        }
    }

    /// What is reported of the error.
    pub fn message(&self) -> (message: &'static str)
        ensures
            message@ == self.text(),
    {
        match self {
            HintError::ImageData => "Failed to deserialize image data to tuple (iiibiiay)",
            HintError::ImagePath => "Failed to convert image path to String (s)",
        }
    }
}

/// The hints that may hold an image, in the order in which they are looked for: first those of the
/// Desktop Notifications standard, in its order, then two more spellings.
pub open spec fn image_hint(rank: int) -> Seq<char> {
    if rank == 0 {
        "image-data"@
    } else if rank == 1 {
        "image-path"@
    } else if rank == 2 {
        "icon_data"@
    } else if rank == 3 {
        "image_data"@
    } else {
        "image_path"@
    }
}

/// Whether a hint holds pixels; the others hold a path.
pub open spec fn holds_pixels(rank: int) -> bool {
    rank == 0 || rank == 2 || rank == 3
}

/// The first hint from `rank` on that is there.
pub open spec fn first_image_hint(hints: Map<Seq<char>, HintValue>, rank: int) -> Option<int>
    decreases 5 - rank,
{
    if rank >= 5 {
        None
    } else if hints.contains_key(image_hint(rank)) {
        Some(rank)
    } else {
        first_image_hint(hints, rank + 1)
    }
}

/// What is done for the image when `value` is what the hint of the given rank holds.
pub open spec fn plan_for(rank: int, value: HintValue) -> Result<ImagePlan, HintError> {
    match value {
        HintValue::Image(image) if holds_pixels(rank) => Ok(
            ImagePlan::Pixels(
                PixbufConfig {
                    width: image.width,
                    height: image.height,
                    row_stride: image.row_stride,
                    has_alpha: image.has_alpha,
                },
                image.data,
            ),
        ),
        HintValue::Text(path) if !holds_pixels(rank) => Ok(ImagePlan::File(path)),
        _ => Err(
            if holds_pixels(rank) {
                HintError::ImageData
            } else {
                HintError::ImagePath
            },
        ),
    }
}

/// What is done for the image of a notification with the given hints.
pub open spec fn hinted_plan(hints: Map<Seq<char>, HintValue>) -> Result<ImagePlan, HintError> {
    match first_image_hint(hints, 0) {
        Some(rank) => plan_for(rank, hints[image_hint(rank)]),
        None => Ok(ImagePlan::Nothing),
    }
}

fn image_hint_name(rank: usize) -> (name: String)
    ensures
        name@ == image_hint(rank as int),
{
    match rank {
        0 => "image-data".to_owned(),
        1 => "image-path".to_owned(),
        2 => "icon_data".to_owned(),
        3 => "image_data".to_owned(),
        _ => "image_path".to_owned(),
    }
}

/// Says where the image comes from when `value` is what the hint of the given rank holds.
fn plan_image(rank: usize, value: HintValue) -> (plan: Result<ImagePlan, HintError>)
    ensures
        plan == plan_for(rank as int, value),
{
    if rank == 0 || rank == 2 || rank == 3 {
        match value {
            HintValue::Image(image) => {
                let config = PixbufConfig {
                    width: image.width,
                    height: image.height,
                    row_stride: image.row_stride,
                    has_alpha: image.has_alpha,
                };
                Ok(ImagePlan::Pixels(config, image.data))
            },
            _ => Err(HintError::ImageData),
        }
    } else {
        match value {
            HintValue::Text(path) => Ok(ImagePlan::File(path)),
            _ => Err(HintError::ImagePath),
        }
    }
}

impl DBusNotification {
    /// Takes out the hint that says what the image is, and says where the image comes from.
    pub fn take_image(&mut self) -> (plan: Result<ImagePlan, HintError>)
        requires
            old(self).hints.wf(),
        ensures
            final(self).hints.wf(),
            plan == hinted_plan(old(self).hints@),
            final(self).hints@ == match first_image_hint(old(self).hints@, 0) {
                Some(rank) => old(self).hints@.remove(image_hint(rank)),
                None => old(self).hints@,
            },
            final(self).app_name == old(self).app_name,
            final(self).replaces_id == old(self).replaces_id,
            final(self).app_icon == old(self).app_icon,
            final(self).summary == old(self).summary,
            final(self).body == old(self).body,
            final(self).actions == old(self).actions,
            final(self).expire_timeout == old(self).expire_timeout,
    {
        let mut rank: usize = 0;
        while rank < 5
            invariant
                rank <= 5,
                *self == *old(self),
                self.hints.wf(),
                first_image_hint(self.hints@, 0) == first_image_hint(self.hints@, rank as int),
            decreases 5 - rank,
        {
            let removed = self.hints.remove(&image_hint_name(rank));
            if let Some(value) = removed {
                return plan_image(rank, value);
            }
            rank += 1;
        }
        Ok(ImagePlan::Nothing)
    }
}

/// The SHA-256 digest of bytes, as `ring::digest::digest` gives it.
pub uninterp spec fn sha256(bytes: Seq<u8>) -> Seq<u8>;

/// `ring::digest::digest` with `ring::digest::SHA256`, which goes by the bytes alone and gives 32
/// of them. It panics where the number of bits in the input takes more than 64 bits to write.
#[verifier::external_body]
fn digest_sha256(bytes: &[u8]) -> (digest: Vec<u8>)
    requires
        bytes@.len() < 0x2000_0000_0000_0000,
    ensures
        digest@ == sha256(bytes@),
        digest@.len() == 32,
{
    ring::digest::digest(&ring::digest::SHA256, bytes).as_ref().to_vec()
}

/// The digest of bytes, in hexadecimal.
pub fn get_digest(bytes: &[u8]) -> (text: String)
    requires
        bytes@.len() < 0x2000_0000_0000_0000,
    ensures
        text@ == crate::text::hex(sha256(bytes@)),
        text@.len() == 64,
{
    to_hex(digest_sha256(bytes).as_slice())
}

/// The file in which an image is kept: its name is the digest of what is in it.
pub open spec fn image_file(image: Seq<u8>) -> Seq<char> {
    IMAGE_PATH@ + "/"@ + crate::text::hex(sha256(image)) + ".png"@
}

/// The file in which an image is kept.
pub fn image_file_path(image: &[u8]) -> (path: String)
    requires
        image@.len() < 0x2000_0000_0000_0000,
    ensures
        path@ == image_file(image@),
{
    let mut path = IMAGE_PATH.to_owned();
    path.append("/");
    path.append(get_digest(image).as_str());
    path.append(".png");
    path
}

/// The file that the notifications are written to.
pub fn notifications_path() -> (path: String)
    ensures
        path@ == DATA_PATH@ + "/"@ + NOTIFICATIONS_FILE@,
{
    let mut path = DATA_PATH.to_owned();
    path.append("/");
    path.append(NOTIFICATIONS_FILE);
    path
}

/// Images with one digest share a file, and only those.
pub proof fn law_image_files_by_digest(a: Seq<u8>, b: Seq<u8>)
    ensures
        image_file(a) == image_file(b) <==> sha256(a) == sha256(b),
{
    let prefix = IMAGE_PATH@ + "/"@;
    let hex_a = crate::text::hex(sha256(a));
    let hex_b = crate::text::hex(sha256(b));
    if image_file(a) == image_file(b) {
        assert(image_file(a).len() == prefix.len() + hex_a.len() + ".png"@.len());
        assert(image_file(b).len() == prefix.len() + hex_b.len() + ".png"@.len());
        let start = prefix.len() as int;
        assert(hex_a =~= image_file(a).subrange(start, start + hex_a.len()));
        assert(hex_b =~= image_file(b).subrange(start, start + hex_b.len()));
        crate::text::law_hex_injective(sha256(a), sha256(b));
    }
}

/// `image` is where the image of a plan is found, and whether it was written to disk for the
/// notification: pixels are, as the picture `png`.
pub open spec fn is_image_of(image: Option<(String, bool)>, plan: ImagePlan, png: Seq<u8>) -> bool {
    match plan {
        ImagePlan::Nothing => image is None,
        ImagePlan::File(path) => image == Some((path, false)),
        ImagePlan::Pixels(_, _) => image matches Some((path, temporary)) && path@ == image_file(png)
            && temporary,
    }
}

/// Where the image of a plan is found, and whether it was written to disk for the notification.
/// Pixels are, as the picture `png`.
pub fn image_of(plan: ImagePlan, png: &[u8]) -> (image: Option<(String, bool)>)
    requires
        plan is Pixels ==> png@.len() < 0x2000_0000_0000_0000,
    ensures
        is_image_of(image, plan, png@),
{
    match plan {
        ImagePlan::Nothing => None,
        ImagePlan::File(path) => Some((path, false)),
        ImagePlan::Pixels(_, _) => Some((image_file_path(png), true)),
    }
}

/// `shown` is the notification made of `received`, with the given time, image and texts.
pub open spec fn made_of(
    shown: EwwNotification,
    received: DBusNotification,
    timestamp: u64,
    image: Option<(String, bool)>,
    summary: Seq<char>,
    body: Seq<char>,
) -> bool {
    &&& shown.id == received.replaces_id
    &&& shown.timestamp == timestamp
    &&& shown.app_name@ == crate::text::capitalized(received.app_name@)
    &&& shown.app_class@ == crate::text::lowercase(received.app_name@)
    &&& shown.summary@ == summary
    &&& shown.body@ == body
    &&& match shown.app_icon {
        Some(icon) => crate::path::is_path_of(icon, received.app_icon@) && received.app_icon@.len()
            > 0,
        None => received.app_icon@.len() == 0,
    }
    &&& match image {
        Some((path, temporary)) => shown.tmp_image == temporary && (shown.image_path matches Some(
            file,
        ) && crate::path::is_path_of(file, path@)),
        None => shown.image_path is None && !shown.tmp_image,
    }
}

/// `shown` is the notification made of `received`, with its texts broken into lines.
pub open spec fn shown_for(
    shown: EwwNotification,
    received: DBusNotification,
    timestamp: u64,
    image: Option<(String, bool)>,
) -> bool {
    made_of(
        shown,
        received,
        timestamp,
        image,
        crate::wrap::filled(received.summary@, LINE_LENGTH),
        crate::wrap::filled(received.body@, LINE_LENGTH),
    )
}

/// Two paths are written alike, or there are none.
pub open spec fn paths_alike(a: Option<PathBuf>, b: Option<PathBuf>) -> bool {
    match (a, b) {
        (Some(one), Some(other)) => crate::path::path_bytes(one) == crate::path::path_bytes(other),
        (None, None) => true,
        _ => false,
    }
}

/// Two notifications agree in all that they hold.
pub open spec fn alike(a: EwwNotification, b: EwwNotification) -> bool {
    &&& a.id == b.id
    &&& a.timestamp == b.timestamp
    &&& a.app_name@ == b.app_name@
    &&& a.app_class@ == b.app_class@
    &&& a.summary@ == b.summary@
    &&& a.body@ == b.body@
    &&& paths_alike(a.app_icon, b.app_icon)
    &&& paths_alike(a.image_path, b.image_path)
    &&& a.tmp_image == b.tmp_image
}

/// Makes the notification that is shown, once its texts are broken into lines. The image comes with
/// whether it was written to disk for this notification.
pub fn assemble(
    received: DBusNotification,
    timestamp: u64,
    image: Option<(String, bool)>,
    summary: String,
    body: String,
) -> (shown: EwwNotification)
    ensures
        made_of(shown, received, timestamp, image, summary@, body@),
{
    let app_icon = if !received.app_icon.as_str().is_empty() {
        Some(path_from(received.app_icon))
    } else {
        None
    };
    let (image_path, tmp_image) = match image {
        Some((path, temporary)) => (Some(path_from(path)), temporary),
        None => (None, false),
    };
    let app_class = to_lowercase(received.app_name.as_str());
    let app_name = capitalize(received.app_name);
    EwwNotification {
        id: received.replaces_id,
        timestamp,
        app_name,
        app_class,
        summary,
        body,
        app_icon,
        image_path,
        tmp_image,
    }
}

/// Makes the notification that is shown.
pub fn make_eww(
    received: DBusNotification,
    timestamp: u64,
    image: Option<(String, bool)>,
) -> (made: Result<EwwNotification, DictionaryError>)
    requires
        crate::wrap::divides_well(received.summary@, LINE_LENGTH),
        crate::wrap::divides_well(received.body@, LINE_LENGTH),
    ensures
        match made {
            Ok(shown) => shown_for(shown, received, timestamp, image),
            Err(error) => crate::wrap::fails_with(error.cause),
        },
{
    let summary = match word_wrap(received.summary.as_str(), LINE_LENGTH) {
        Ok(summary) => summary,
        Err(error) => {
            return Err(error);
        },
    };
    let body = match word_wrap(received.body.as_str(), LINE_LENGTH) {
        Ok(body) => body,
        Err(error) => {
            return Err(error);
        },
    };
    Ok(assemble(received, timestamp, image, summary, body))
}

/// Makes the notification that is shown, if its texts can be broken into lines; gives the one that
/// was received back if they cannot.
pub fn try_make_eww(
    received: DBusNotification,
    timestamp: u64,
    image: Option<(String, bool)>,
) -> (made: Result<Result<EwwNotification, DictionaryError>, DBusNotification>)
    ensures
        match made {
            Ok(Ok(shown)) => {
                &&& crate::wrap::divides_well(received.summary@, LINE_LENGTH)
                &&& crate::wrap::divides_well(received.body@, LINE_LENGTH)
                &&& shown_for(shown, received, timestamp, image)
            },
            Ok(Err(error)) => crate::wrap::fails_with(error.cause),
            Err(unchanged) => unchanged == received && !(crate::wrap::divides_well(
                received.summary@,
                LINE_LENGTH,
            ) && crate::wrap::divides_well(received.body@, LINE_LENGTH)),
        },
{
    let dictionary = match load_english() {
        Ok(dictionary) => dictionary,
        Err(error) => {
            return Ok(Err(error));
        },
    };
    if can_wrap_with(received.summary.as_str(), LINE_LENGTH, &dictionary) && can_wrap_with(
        received.body.as_str(),
        LINE_LENGTH,
        &dictionary,
    ) {
        Ok(make_eww(received, timestamp, image))
    } else {
        Err(received)
    }
}

/// The image of a notification goes by its first image hint: pixels are written to the file that
/// their picture has, and are the only temporary images; a path is taken as it is.
pub proof fn law_image_goes_by_the_first_hint(
    shown: EwwNotification,
    received: DBusNotification,
    plan: ImagePlan,
    png: Seq<u8>,
    timestamp: u64,
    image: Option<(String, bool)>,
    summary: Seq<char>,
    body: Seq<char>,
)
    requires
        hinted_plan(received.hints@) == Ok::<ImagePlan, HintError>(plan),
        is_image_of(image, plan, png),
        made_of(shown, received, timestamp, image, summary, body),
    ensures
        match first_image_hint(received.hints@, 0) {
            Some(rank) => {
                &&& shown.tmp_image == holds_pixels(rank)
                &&& shown.image_path matches Some(path) && if holds_pixels(rank) {
                    crate::path::is_path_of(path, image_file(png))
                } else {
                    received.hints@[image_hint(rank)] matches HintValue::Text(text)
                        && crate::path::is_path_of(path, text@)
                }
            },
            None => shown.image_path is None && !shown.tmp_image,
        },
{
}

proof fn lemma_first_hint_decides(
    a: Map<Seq<char>, HintValue>,
    b: Map<Seq<char>, HintValue>,
    rank: int,
    from: int,
)
    requires
        first_image_hint(a, from) == Some(rank),
        forall|r: int|
            from <= r <= rank ==> a.contains_key(#[trigger] image_hint(r)) == b.contains_key(
                image_hint(r),
            ),
    ensures
        first_image_hint(b, from) == Some(rank),
        from <= rank,
    decreases 5 - from,
{
    if a.contains_key(image_hint(from)) {
        assert(b.contains_key(image_hint(from)));
    } else {
        lemma_first_hint_from(a, from + 1, rank);
        assert(!b.contains_key(image_hint(from)));
        lemma_first_hint_decides(a, b, rank, from + 1);
    }
}

proof fn lemma_first_hint_from(a: Map<Seq<char>, HintValue>, from: int, rank: int)
    requires
        first_image_hint(a, from) == Some(rank),
    ensures
        from <= rank < 5,
    decreases 5 - from,
{
    if !a.contains_key(image_hint(from)) {
        lemma_first_hint_from(a, from + 1, rank);
    }
}

/// Two notifications that differ only in their actions, in their time to expire, and in hints other
/// than the first image hint and those that are looked for before it, are shown alike. Their images
/// are planned alike, with the same error if there is one. What is made of them at one time, and of
/// one picture where there are pixels, agrees in all that it holds.
pub proof fn law_later_hints_do_not_matter(
    a: DBusNotification,
    b: DBusNotification,
    rank: int,
    plan: ImagePlan,
    png: Seq<u8>,
    timestamp: u64,
    image_a: Option<(String, bool)>,
    image_b: Option<(String, bool)>,
    shown_a: EwwNotification,
    shown_b: EwwNotification,
)
    requires
        a.app_name@ == b.app_name@,
        a.replaces_id == b.replaces_id,
        a.app_icon@ == b.app_icon@,
        a.summary@ == b.summary@,
        a.body@ == b.body@,
        first_image_hint(a.hints@, 0) == Some(rank),
        forall|r: int|
            0 <= r <= rank ==> a.hints@.contains_key(#[trigger] image_hint(r))
                == b.hints@.contains_key(image_hint(r)),
        a.hints@[image_hint(rank)] == b.hints@[image_hint(rank)],
    ensures
        hinted_plan(a.hints@) == hinted_plan(b.hints@),
        hinted_plan(a.hints@) == Ok::<ImagePlan, HintError>(plan) && is_image_of(image_a, plan, png)
            && is_image_of(image_b, plan, png) && shown_for(shown_a, a, timestamp, image_a)
            && shown_for(shown_b, b, timestamp, image_b) ==> alike(shown_a, shown_b),
{
    lemma_first_hint_decides(a.hints@, b.hints@, rank, 0);
}

} // verus!
