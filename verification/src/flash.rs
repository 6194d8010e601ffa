//! How a firmware image is brought to a board: the commands, as configured.
use crate::jsonc::{
    items_view, json_view, lemma_items_view, lemma_object, members_view, Json, JsonView,
};
use crate::path::{file_name, file_name_of};
use crate::text::{owned, replace_all, replaced, same, texts};
use crate::text_map::{lookup, Pairs, TextMap};
use vstd::prelude::*;

verus! {

/// The tool that writes an image, and the templates of its commands.
#[derive(Clone, Debug)]
pub struct FlashConfig {
    /// The name of the tool; empty where none is configured.
    pub tool: String,
    /// Writes a full image; `{image}` stands for its path.
    pub full_image_cmd: String,
    /// Writes a kernel alone; `{image}` stands for its path.
    pub kernel_image_cmd: String,
    /// The helper that a board in mask ROM mode needs first.
    pub loader_bin: String,
    /// Loads the helper; `{loader}` stands for its path.
    pub loader_cmd: String,
    /// Lists the boards that can be written.
    pub list_devices_cmd: String,
    /// Where images are uploaded to.
    pub upload_dir: String,
}

/// The meaning of a [`FlashConfig`].
#[verifier::ext_equal]
pub ghost struct FlashView {
    pub tool: Seq<char>,
    pub full_image_cmd: Seq<char>,
    pub kernel_image_cmd: Seq<char>,
    pub loader_bin: Seq<char>,
    pub loader_cmd: Seq<char>,
    pub list_devices_cmd: Seq<char>,
    pub upload_dir: Seq<char>,
}

impl View for FlashConfig {
    type V = FlashView;

    open spec fn view(&self) -> FlashView {
        FlashView {
            tool: self.tool@,
            full_image_cmd: self.full_image_cmd@,
            kernel_image_cmd: self.kernel_image_cmd@,
            loader_bin: self.loader_bin@,
            loader_cmd: self.loader_cmd@,
            list_devices_cmd: self.list_devices_cmd@,
            upload_dir: self.upload_dir@,
        }
    }
}

impl Default for FlashConfig {
    /// Everything empty.
    fn default() -> (r: Self)
        ensures
            r@ == (FlashView {
                tool: Seq::empty(),
                full_image_cmd: Seq::empty(),
                kernel_image_cmd: Seq::empty(),
                loader_bin: Seq::empty(),
                loader_cmd: Seq::empty(),
                list_devices_cmd: Seq::empty(),
                upload_dir: Seq::empty(),
            }),
    {
        let r = FlashConfig {
            tool: String::new(),
            full_image_cmd: String::new(),
            kernel_image_cmd: String::new(),
            loader_bin: String::new(),
            loader_cmd: String::new(),
            list_devices_cmd: String::new(),
            upload_dir: String::new(),
        };
        assert(r@ =~= (FlashView {
            tool: Seq::empty(),
            full_image_cmd: Seq::empty(),
            kernel_image_cmd: Seq::empty(),
            loader_bin: Seq::empty(),
            loader_cmd: Seq::empty(),
            list_devices_cmd: Seq::empty(),
            upload_dir: Seq::empty(),
        }));
        r
    }
}

/// The value of a key, or another text where it has none.
pub open spec fn value_or(p: Pairs, key: Seq<char>, other: Seq<char>) -> Seq<char> {
    match lookup(p, key) {
        Some(v) => v,
        None => other,
    }
}

/// The value of a key, or another text where it has none or an empty one.
pub open spec fn filled_or(p: Pairs, key: Seq<char>, other: Seq<char>) -> Seq<char> {
    match lookup(p, key) {
        Some(v) => if v.len() == 0 {
            other
        } else {
            v
        },
        None => other,
    }
}

fn get_or(cfg: &TextMap, key: &str, other: &str) -> (r: String)
    ensures
        r@ == value_or(cfg@, key@, other@),
{
    match cfg.get(key) {
        Some(v) => owned(v.as_str()),
        None => owned(other),
    }
}

fn get_filled_or(cfg: &TextMap, key: &str, other: &str) -> (r: String)
    ensures
        r@ == filled_or(cfg@, key@, other@),
{
    match cfg.get(key) {
        Some(v) => if v.as_str().unicode_len() == 0 {
            owned(other)
        } else {
            owned(v.as_str())
        },
        None => owned(other),
    }
}

/// What the flat configuration says of writing images.
pub open spec fn flash_of(p: Pairs) -> FlashView {
    FlashView {
        tool: value_or(p, "FLASH_TOOL"@, ""@),
        full_image_cmd: value_or(p, "FLASH_FULL_IMAGE_CMD"@, "uf {image}"@),
        kernel_image_cmd: value_or(p, "FLASH_KERNEL_IMAGE_CMD"@, "wp kernel {image}"@),
        loader_bin: value_or(p, "FLASH_LOADER_BIN"@, ""@),
        loader_cmd: filled_or(p, "FLASH_LOADER_CMD"@, "DB {loader}"@),
        list_devices_cmd: filled_or(p, "FLASH_LIST_DEVICES_CMD"@, "LD"@),
        upload_dir: value_or(p, "FLASH_UPLOAD_DIR"@, "/tmp"@),
    }
}

impl FlashConfig {
    /// What the flat configuration says of writing images.
    pub fn from_config(cfg: &TextMap) -> (r: Self)
        ensures
            r@ == flash_of(cfg@),
    {
        let r = FlashConfig {
            tool: get_or(cfg, "FLASH_TOOL", ""),
            full_image_cmd: get_or(cfg, "FLASH_FULL_IMAGE_CMD", "uf {image}"),
            kernel_image_cmd: get_or(cfg, "FLASH_KERNEL_IMAGE_CMD", "wp kernel {image}"),
            loader_bin: get_or(cfg, "FLASH_LOADER_BIN", ""),
            loader_cmd: get_filled_or(cfg, "FLASH_LOADER_CMD", "DB {loader}"),
            list_devices_cmd: get_filled_or(cfg, "FLASH_LIST_DEVICES_CMD", "LD"),
            upload_dir: get_or(cfg, "FLASH_UPLOAD_DIR", "/tmp"),
        };
        assert(r@ =~= flash_of(cfg@));
        r
    }

    /// Whether a tool is configured.
    pub fn is_configured(&self) -> (r: bool)
        ensures
            r == (self@.tool.len() > 0),
    {
        self.tool.as_str().unicode_len() > 0
    }

    /// The command that writes the full image at a path.
    pub fn full_image_command(&self, remote_image_path: &str) -> (r: String)
        ensures
            r@ == replaced(self@.full_image_cmd, "{image}"@, remote_image_path@),
    {
        proof {
            reveal_strlit("{image}");
        }
        replace_all(self.full_image_cmd.as_str(), "{image}", remote_image_path)
    }

    /// The command that writes the kernel at a path.
    pub fn kernel_image_command(&self, remote_image_path: &str) -> (r: String)
        ensures
            r@ == replaced(self@.kernel_image_cmd, "{image}"@, remote_image_path@),
    {
        proof {
            reveal_strlit("{image}");
        }
        replace_all(self.kernel_image_cmd.as_str(), "{image}", remote_image_path)
    }

    /// The command that loads the helper.
    pub fn loader_command(&self) -> (r: String)
        ensures
            r@ == replaced(self@.loader_cmd, "{loader}"@, self@.loader_bin),
    {
        proof {
            reveal_strlit("{loader}");
        }
        replace_all(self.loader_cmd.as_str(), "{loader}", self.loader_bin.as_str())
    }

    /// The command that lists the boards.
    pub fn list_devices_command(&self) -> (r: String)
        ensures
            r@ == self@.list_devices_cmd,
    {
        owned(self.list_devices_cmd.as_str())
    }
}

/// What an image holds.
#[derive(Clone, Copy, Debug, PartialEq, Eq, Structural)]
pub enum ImageType {
    /// The whole firmware.
    Full,
    /// The kernel alone.
    Kernel,
}

/// The text in lower case, as Unicode has it.
pub uninterp spec fn lowercase(s: Seq<char>) -> Seq<char>;

/// `str::to_lowercase`: the lower case of a text, which its characters alone
/// determine. What it is for each character is not stated.
#[verifier::external_body]
fn to_lower(s: &str) -> (r: String)
    ensures
        r@ == lowercase(s@),
{
    s.to_lowercase()
}

/// The kind of image that a word in lower case names.
pub open spec fn image_type_of(word: Seq<char>) -> Option<ImageType> {
    if word == "full"@ || word == "update"@ || word == "all"@ {
        Some(ImageType::Full)
    } else if word == "kernel"@ || word == "boot"@ {
        Some(ImageType::Kernel)
    } else {
        None
    }
}

impl ImageType {
    /// The kind of image that a word in lower case names.
    pub fn from_lower(word: &str) -> (r: Option<Self>)
        ensures
            r == image_type_of(word@),
    {
        if same(word, "full") || same(word, "update") || same(word, "all") {
            Some(ImageType::Full)
        } else if same(word, "kernel") || same(word, "boot") {
            Some(ImageType::Kernel)
        } else {
            None
        }
    }

    /// The kind of image that a word names, in capital or small letters.
    pub fn parse(s: &str) -> (r: Option<Self>)
        ensures
            r == image_type_of(lowercase(s@)),
    {
        let low = to_lower(s);
        ImageType::from_lower(low.as_str())
    }

    /// The word for the kind of image.
    pub fn word(&self) -> (r: &'static str)
        ensures
            r@ == image_word(*self),
    {
        match self {
            ImageType::Full => "full",
            ImageType::Kernel => "kernel",
        }
    }
}

/// The word for a kind of image.
pub open spec fn image_word(t: ImageType) -> Seq<char> {
    match t {
        ImageType::Full => "full"@,
        ImageType::Kernel => "kernel"@,
    }
}

/// The steps that bring an image to a board.
#[derive(Clone, Debug)]
pub struct FlashPlan {
    pub tool: String,
    pub local_image: String,
    pub remote_path: String,
    pub dev_host: String,
    pub dev_user: String,
    pub upload_dir: String,
    pub full_image_cmd: String,
    pub kernel_image_cmd: String,
    pub loader_bin: String,
    pub loader_cmd: String,
    pub list_devices_cmd: String,
    pub image_type: ImageType,
}

/// The meaning of a [`FlashPlan`].
#[verifier::ext_equal]
pub ghost struct PlanView {
    pub tool: Seq<char>,
    pub local_image: Seq<char>,
    pub remote_path: Seq<char>,
    pub dev_host: Seq<char>,
    pub dev_user: Seq<char>,
    pub upload_dir: Seq<char>,
    pub full_image_cmd: Seq<char>,
    pub kernel_image_cmd: Seq<char>,
    pub loader_bin: Seq<char>,
    pub loader_cmd: Seq<char>,
    pub list_devices_cmd: Seq<char>,
    pub image_type: ImageType,
}

impl View for FlashPlan {
    type V = PlanView;

    open spec fn view(&self) -> PlanView {
        PlanView {
            tool: self.tool@,
            local_image: self.local_image@,
            remote_path: self.remote_path@,
            dev_host: self.dev_host@,
            dev_user: self.dev_user@,
            upload_dir: self.upload_dir@,
            full_image_cmd: self.full_image_cmd@,
            kernel_image_cmd: self.kernel_image_cmd@,
            loader_bin: self.loader_bin@,
            loader_cmd: self.loader_cmd@,
            list_devices_cmd: self.list_devices_cmd@,
            image_type: self.image_type,
        }
    }
}

/// Where images are uploaded to, when nothing is configured too.
pub open spec fn upload_dir_of(c: FlashView) -> Seq<char> {
    if c.upload_dir.len() == 0 {
        "/tmp"@
    } else {
        c.upload_dir
    }
}

/// Where the image is on the far host: in the upload directory, under its
/// own name.
pub open spec fn remote_of(c: FlashView, image: Seq<char>) -> Seq<char> {
    upload_dir_of(c) + "/"@ + (match file_name_of(image) {
        Some(n) => n,
        None => "firmware.img"@,
    })
}

/// The plan for the image at a path.
pub open spec fn plan_of(
    c: FlashView,
    image: Seq<char>,
    image_type: ImageType,
    dev_host: Seq<char>,
    dev_user: Seq<char>,
) -> PlanView {
    let remote = remote_of(c, image);
    PlanView {
        tool: c.tool,
        local_image: image,
        remote_path: remote,
        dev_host,
        dev_user,
        upload_dir: upload_dir_of(c),
        full_image_cmd: replaced(c.full_image_cmd, "{image}"@, remote),
        kernel_image_cmd: replaced(c.kernel_image_cmd, "{image}"@, remote),
        loader_bin: c.loader_bin,
        loader_cmd: if c.loader_bin.len() == 0 {
            Seq::empty()
        } else {
            replaced(c.loader_cmd, "{loader}"@, c.loader_bin)
        },
        list_devices_cmd: c.list_devices_cmd,
        image_type,
    }
}

/// `ssh` to the far host.
pub open spec fn ssh_to(p: PlanView) -> Seq<char> {
    "ssh "@ + p.dev_user + "@"@ + p.dev_host + " '"@
}

/// The tool with a command, run on the far host.
pub open spec fn tool_step(p: PlanView, command: Seq<char>) -> Seq<char> {
    ssh_to(p) + p.tool + " "@ + command + "'"@
}

/// The command that writes the image of the plan.
pub open spec fn selected_cmd(p: PlanView) -> Seq<char> {
    match p.image_type {
        ImageType::Full => p.full_image_cmd,
        ImageType::Kernel => p.kernel_image_cmd,
    }
}

/// The commands of a plan, in order: upload, check, list, load the helper,
/// write. The third and the fourth are left out where they are empty.
pub open spec fn plan_steps(p: PlanView) -> Seq<Seq<char>> {
    let upload = "scp "@ + p.local_image + " "@ + p.dev_user + "@"@ + p.dev_host + ":"@
        + p.remote_path;
    let check = ssh_to(p) + "sha256sum "@ + p.remote_path + "'"@;
    let list = if p.list_devices_cmd.len() > 0 {
        seq![tool_step(p, p.list_devices_cmd)]
    } else {
        Seq::empty()
    };
    let load = if p.loader_bin.len() > 0 {
        seq![tool_step(p, p.loader_cmd)]
    } else {
        Seq::empty()
    };
    seq![upload, check] + list + load + seq![tool_step(p, selected_cmd(p))]
}

impl FlashPlan {
    /// The plan for the image at `real_path`, which is the path with its
    /// links resolved.
    pub fn from_config(
        config: &FlashConfig,
        real_path: &str,
        image_type: ImageType,
        dev_host: &str,
        dev_user: &str,
    ) -> (r: Self)
        ensures
            r@ == plan_of(config@, real_path@, image_type, dev_host@, dev_user@),
    {
        let name = match file_name(real_path) {
            Some(n) => n,
            None => owned("firmware.img"),
        };
        let upload_dir = if config.upload_dir.as_str().unicode_len() == 0 {
            owned("/tmp")
        } else {
            owned(config.upload_dir.as_str())
        };
        let mut remote_path = owned(upload_dir.as_str());
        remote_path.append("/");
        remote_path.append(name.as_str());
        let loader_cmd = if config.loader_bin.as_str().unicode_len() == 0 {
            String::new()
        } else {
            config.loader_command()
        };
        let r = FlashPlan {
            tool: owned(config.tool.as_str()),
            local_image: owned(real_path),
            full_image_cmd: config.full_image_command(remote_path.as_str()),
            kernel_image_cmd: config.kernel_image_command(remote_path.as_str()),
            remote_path,
            dev_host: owned(dev_host),
            dev_user: owned(dev_user),
            upload_dir,
            loader_bin: owned(config.loader_bin.as_str()),
            loader_cmd,
            list_devices_cmd: config.list_devices_command(),
            image_type,
        };
        assert(r@ =~= plan_of(config@, real_path@, image_type, dev_host@, dev_user@));
        r
    }

    fn ssh(&self) -> (r: String)
        ensures
            r@ == ssh_to(self@),
    {
        let mut r = owned("ssh ");
        r.append(self.dev_user.as_str());
        r.append("@");
        r.append(self.dev_host.as_str());
        r.append(" '");
        r
    }

    fn run_tool(&self, command: &str) -> (r: String)
        ensures
            r@ == tool_step(self@, command@),
    {
        let mut r = self.ssh();
        r.append(self.tool.as_str());
        r.append(" ");
        r.append(command);
        r.append("'");
        r
    }

    /// The command that writes the image of the plan.
    pub fn selected_flash_cmd(&self) -> (r: &str)
        ensures
            r@ == selected_cmd(self@),
    {
        match self.image_type {
            ImageType::Full => self.full_image_cmd.as_str(),
            ImageType::Kernel => self.kernel_image_cmd.as_str(),
        }
    }

    /// The commands of the plan, in order.
    pub fn commands(&self) -> (r: Vec<String>)
        ensures
            texts(r@) == plan_steps(self@),
    {
        let mut upload = owned("scp ");
        upload.append(self.local_image.as_str());
        upload.append(" ");
        upload.append(self.dev_user.as_str());
        upload.append("@");
        upload.append(self.dev_host.as_str());
        upload.append(":");
        upload.append(self.remote_path.as_str());
        let mut check = self.ssh();
        check.append("sha256sum ");
        check.append(self.remote_path.as_str());
        check.append("'");
        let mut r: Vec<String> = Vec::new();
        r.push(upload);
        r.push(check);
        if self.list_devices_cmd.as_str().unicode_len() > 0 {
            r.push(self.run_tool(self.list_devices_cmd.as_str()));
        }
        if self.loader_bin.as_str().unicode_len() > 0 {
            r.push(self.run_tool(self.loader_cmd.as_str()));
        }
        r.push(self.run_tool(self.selected_flash_cmd()));
        assert(texts(r@) =~= plan_steps(self@));
        r
    }
}

// ── The plan as a value ──────────────────────────────────────────────
/// What is said where no tool is configured.
pub const FLASH_NOT_CONFIGURED: &'static str =
    "Flash not configured. Add a \"flash\" section to .target.jsonc.";

/// Texts as JSON values.
pub open spec fn text_values(v: Seq<Seq<char>>) -> Seq<JsonView> {
    Seq::new(v.len(), |i: int| JsonView::Text(v[i]))
}

/// The plan as a JSON object.
pub open spec fn plan_value(p: PlanView) -> JsonView {
    JsonView::Object(
        seq![
            ("success"@, JsonView::Bool(true)),
            ("tool"@, JsonView::Text(p.tool)),
            ("local_image"@, JsonView::Text(p.local_image)),
            ("remote_path"@, JsonView::Text(p.remote_path)),
            ("dev_host"@, JsonView::Text(p.dev_host)),
            ("dev_user"@, JsonView::Text(p.dev_user)),
            ("upload_dir"@, JsonView::Text(p.upload_dir)),
            ("image_type"@, JsonView::Text(image_word(p.image_type))),
            ("full_image_cmd"@, JsonView::Text(p.full_image_cmd)),
            ("kernel_image_cmd"@, JsonView::Text(p.kernel_image_cmd)),
            ("selected_flash_cmd"@, JsonView::Text(selected_cmd(p))),
            ("loader_bin"@, JsonView::Text(p.loader_bin)),
            ("loader_cmd"@, JsonView::Text(p.loader_cmd)),
            ("list_devices_cmd"@, JsonView::Text(p.list_devices_cmd)),
            ("steps"@, JsonView::Array(text_values(plan_steps(p)))),
        ],
    )
}

/// What is answered when the plan for an image is asked for. A word that
/// names no kind of image stands for the whole firmware.
pub open spec fn plan_answer(
    values: Pairs,
    dev_host: Seq<char>,
    image: Seq<char>,
    kind: Option<ImageType>,
) -> JsonView {
    let c = flash_of(values);
    if c.tool.len() == 0 {
        JsonView::Object(
            seq![
                ("success"@, JsonView::Bool(false)),
                ("error"@, JsonView::Text(FLASH_NOT_CONFIGURED@)),
            ],
        )
    } else {
        let t = match kind {
            Some(t) => t,
            None => ImageType::Full,
        };
        plan_value(plan_of(c, image, t, dev_host, value_or(values, "DEV_HOST_USER"@, "linaro"@)))
    }
}

fn text_member(m: &mut Vec<(String, Json)>, name: &str, value: &str)
    ensures
        final(m)@.len() == old(m)@.len() + 1,
        final(m)@.take(old(m)@.len() as int) == old(m)@,
        final(m)@.last().0@ == name@,
        json_view(final(m)@.last().1) == JsonView::Text(value@),
        members_view(final(m)@) == members_view(old(m)@).push((name@, JsonView::Text(value@))),
{
    m.push((owned(name), Json::Text(owned(value))));
    assert(m@.drop_last() =~= old(m)@);
    assert(m@.take(old(m)@.len() as int) =~= old(m)@);
}

fn steps_value(steps: &Vec<String>) -> (r: Json)
    ensures
        r@ == JsonView::Array(text_values(texts(steps@))),
{
    let mut v: Vec<Json> = Vec::new();
    let mut i: usize = 0;
    while i < steps.len()
        invariant
            i <= steps@.len(),
            v@.len() == i,
            forall|k: int|
                0 <= k < i ==> json_view(#[trigger] v@[k]) == JsonView::Text(steps@[k]@),
        decreases steps@.len() - i,
    {
        v.push(Json::Text(owned(steps[i].as_str())));
        i += 1;
    }
    proof {
        lemma_items_view(v@);
        assert(items_view(v@) =~= text_values(texts(steps@)));
    }
    Json::Array(v)
}

/// The plan as a JSON object.
pub fn flash_plan_value(plan: &FlashPlan) -> (r: Json)
    ensures
        r@ == plan_value(plan@),
{
    let mut m: Vec<(String, Json)> = Vec::new();
    m.push((owned("success"), Json::Bool(true)));
    proof {
        lemma_object(m@, seq![("success"@, JsonView::Bool(true))]);
    }
    text_member(&mut m, "tool", plan.tool.as_str());
    text_member(&mut m, "local_image", plan.local_image.as_str());
    text_member(&mut m, "remote_path", plan.remote_path.as_str());
    text_member(&mut m, "dev_host", plan.dev_host.as_str());
    text_member(&mut m, "dev_user", plan.dev_user.as_str());
    text_member(&mut m, "upload_dir", plan.upload_dir.as_str());
    text_member(&mut m, "image_type", plan.image_type.word());
    text_member(&mut m, "full_image_cmd", plan.full_image_cmd.as_str());
    text_member(&mut m, "kernel_image_cmd", plan.kernel_image_cmd.as_str());
    text_member(&mut m, "selected_flash_cmd", plan.selected_flash_cmd());
    text_member(&mut m, "loader_bin", plan.loader_bin.as_str());
    text_member(&mut m, "loader_cmd", plan.loader_cmd.as_str());
    text_member(&mut m, "list_devices_cmd", plan.list_devices_cmd.as_str());
    let steps = steps_value(&plan.commands());
    let ghost before = m@;
    m.push((owned("steps"), steps));
    assert(m@.drop_last() =~= before);
    assert(members_view(m@) =~= plan_value(plan@)->Object_0);
    Json::Object(m)
}

/// What is answered when the plan for an image is asked for, given the kind
/// of image, if one was named.
pub fn flash_plan_answer(
    values: &TextMap,
    dev_host: &str,
    real_path: &str,
    kind: Option<ImageType>,
) -> (r: Json)
    ensures
        r@ == plan_answer(values@, dev_host@, real_path@, kind),
{
    let config = FlashConfig::from_config(values);
    if !config.is_configured() {
        let mut m: Vec<(String, Json)> = Vec::new();
        m.push((owned("success"), Json::Bool(false)));
        m.push((owned("error"), Json::Text(owned(FLASH_NOT_CONFIGURED))));
        proof {
            lemma_object(m@, plan_answer(values@, dev_host@, real_path@, kind)->Object_0);
        }
        return Json::Object(m);
    }
    let image_type = match kind {
        Some(t) => t,
        None => ImageType::Full,
    };
    let dev_user = get_or(values, "DEV_HOST_USER", "linaro");
    let plan = FlashPlan::from_config(&config, real_path, image_type, dev_host, dev_user.as_str());
    flash_plan_value(&plan)
}

/// What is answered when the plan for an image is asked for: `image_type` is
/// the word for the kind of image, in capital or small letters.
pub fn build_flash_plan_json(
    values: &TextMap,
    dev_host: &str,
    real_path: &str,
    image_type: &str,
) -> (r: Json)
    ensures
        r@ == plan_answer(values@, dev_host@, real_path@, image_type_of(lowercase(image_type@))),
{
    flash_plan_answer(values, dev_host, real_path, ImageType::parse(image_type))
}

} // verus!
