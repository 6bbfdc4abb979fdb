//! What a notification is shown as, field by field.
use crate::notification::{
    DBusNotification, EwwNotification, HintError, HintValue, ImagePlan,
};
use vstd::prelude::*;

verus! {

/// What is planned for a hint that should hold pixels: a picture of the width, height, row stride
/// and alpha channel of the value, made of its bytes. Any other value is an error.
pub open spec fn plans_pixels(value: HintValue, plan: Result<ImagePlan, HintError>) -> bool {
    match value {
        HintValue::Image(image) => plan matches Ok(ImagePlan::Pixels(config, data)) && {
            &&& config.width == image.width
            &&& config.height == image.height
            &&& config.row_stride == image.row_stride
            &&& config.has_alpha == image.has_alpha
            &&& data@ == image.data@
        },
        _ => plan matches Err(error) && error is ImageData,
    }
}

/// What is planned for a hint that should hold a path: the file with that path. Any other value is
/// an error.
pub open spec fn plans_file(value: HintValue, plan: Result<ImagePlan, HintError>) -> bool {
    match value {
        HintValue::Text(text) => plan matches Ok(ImagePlan::File(path)) && path@ == text@,
        _ => plan matches Err(error) && error is ImagePath,
    }
}

/// The first hint there is of `image-data`, `image-path`, `icon_data`, `image_data` and
/// `image_path`, in this order, says what is planned for the image, and is taken out of the hints.
/// The data hints hold pixels, and the others paths. Where there is none of them, there is no
/// image, and the hints stay as they are.
pub proof fn law_image_plan_in_detail(hints: Map<Seq<char>, HintValue>)
    ensures
        ({
            let plan = crate::notification::hinted_plan(hints);
            let left = match crate::notification::first_image_hint(hints, 0) {
                Some(rank) => hints.remove(crate::notification::image_hint(rank)),
                None => hints,
            };
            if hints.contains_key("image-data"@) {
                plans_pixels(hints["image-data"@], plan) && left == hints.remove("image-data"@)
            } else if hints.contains_key("image-path"@) {
                plans_file(hints["image-path"@], plan) && left == hints.remove("image-path"@)
            } else if hints.contains_key("icon_data"@) {
                plans_pixels(hints["icon_data"@], plan) && left == hints.remove("icon_data"@)
            } else if hints.contains_key("image_data"@) {
                plans_pixels(hints["image_data"@], plan) && left == hints.remove("image_data"@)
            } else if hints.contains_key("image_path"@) {
                plans_file(hints["image_path"@], plan) && left == hints.remove("image_path"@)
            } else {
                (plan matches Ok(ImagePlan::Nothing)) && left == hints
            }
        }),
{
    reveal_with_fuel(crate::notification::first_image_hint, 7);
}

/// An image in a file keeps its path, and was not written to disk for the notification. Pixels are
/// written to a file of the images directory, with the digest of the picture as its name.
pub proof fn law_image_in_detail(
    image: Option<(String, bool)>,
    plan: ImagePlan,
    png: Seq<u8>,
)
    requires
        crate::notification::is_image_of(image, plan, png),
    ensures
        match plan {
            ImagePlan::Nothing => image is None,
            ImagePlan::File(path) => image matches Some((file, temporary)) && file@ == path@
                && !temporary,
            ImagePlan::Pixels(_, _) => image matches Some((file, temporary)) && temporary && file@
                == "/tmp/deskctrl/images"@ + "/"@ + crate::text::hex(
                crate::notification::sha256(png),
            ) + ".png"@,
        },
{
}

/// What is shown of a notification: its id is the one that it replaces, its class its application's
/// name in lower case, its name the same with the first letter in upper case, its texts those that
/// came, broken into lines of 36 columns, its icon and its image the paths that came, unless there
/// are none.
pub proof fn law_shown_in_detail(
    shown: EwwNotification,
    received: DBusNotification,
    timestamp: u64,
    image: Option<(String, bool)>,
)
    ensures
        crate::notification::shown_for(shown, received, timestamp, image) <==> {
            &&& shown.id == received.replaces_id
            &&& shown.timestamp == timestamp
            &&& shown.app_class@ == crate::text::lowercase(received.app_name@)
            &&& received.app_name@.len() == 0 ==> shown.app_name@.len() == 0
            &&& received.app_name@.len() > 0 ==> shown.app_name@ == crate::text::uppercase(
                received.app_name@[0],
            ) + received.app_name@.drop_first()
            &&& shown.summary@ == crate::wrap::filled(received.summary@, 36)
            &&& shown.body@ == crate::wrap::filled(received.body@, 36)
            &&& shown.app_icon is Some <==> received.app_icon@.len() > 0
            &&& shown.app_icon matches Some(path) ==> crate::path::path_bytes(path)
                == vstd::utf8::encode_utf8(received.app_icon@)
            &&& match image {
                Some((file, temporary)) => shown.tmp_image == temporary && (
                shown.image_path matches Some(path) && crate::path::path_bytes(path)
                    == vstd::utf8::encode_utf8(file@)),
                None => !shown.tmp_image && shown.image_path is None,
            }
        },
{
    if received.app_name@.len() > 0 {
        assert(received.app_name@.skip(1) =~= received.app_name@.drop_first());
    } else {
        assert(shown.app_name@.len() == 0 ==> shown.app_name@ =~= received.app_name@);
    }
}

/// Each error tells the user which kind of hint was refused, and the two texts are not the same.
pub proof fn law_error_texts(error: HintError, other: HintError)
    ensures
        error is ImageData <==> error.text()
            == "Failed to deserialize image data to tuple (iiibiiay)"@,
        error is ImagePath <==> error.text() == "Failed to convert image path to String (s)"@,
        error.text() == other.text() <==> error == other,
{
    reveal_strlit("Failed to deserialize image data to tuple (iiibiiay)");
    reveal_strlit("Failed to convert image path to String (s)");
    let (data, path) = (
        "Failed to deserialize image data to tuple (iiibiiay)"@,
        "Failed to convert image path to String (s)"@,
    );
    assert(data.len() != path.len());
}

} // verus!
