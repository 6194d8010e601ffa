//! What the plan that brings an image to a board does, step by step.
use crate::config::member;
use crate::flash::{
    flash_of, image_type_of, image_word, plan_answer, plan_of, plan_steps, remote_of, text_values,
    FlashView, ImageType,
};
use crate::jsonc::JsonView;
use crate::path::file_name_of;
use crate::text::{begins_with, ends_with, replaced};
use crate::text_map::{lookup, Pairs};
use vstd::prelude::*;

verus! {

// ── The steps ────────────────────────────────────────────────────────
/// The first step copies the image to the far host: its source is the image on
/// this machine, its destination the file on the far host, and there is
/// nothing else in it.
pub proof fn lemma_first_step_uploads(
    c: FlashView,
    image: Seq<char>,
    t: ImageType,
    host: Seq<char>,
    user: Seq<char>,
)
    ensures
        ({
            let steps = plan_steps(plan_of(c, image, t, host, user));
            let source = "scp "@ + image;
            let destination = " "@ + user + "@"@ + host + ":"@ + remote_of(c, image);
            &&& steps.len() > 0
            &&& begins_with(steps[0], source)
            &&& ends_with(steps[0], destination)
            &&& steps[0].len() == source.len() + destination.len()
        }),
{
    let steps = plan_steps(plan_of(c, image, t, host, user));
    let source = "scp "@ + image;
    let destination = " "@ + user + "@"@ + host + ":"@ + remote_of(c, image);
    assert(steps[0] =~= source + destination);
    assert(steps[0].take(source.len() as int) =~= source);
    assert(steps[0].skip(source.len() as int) =~= destination);
}

/// The image arrives in the upload directory, under its own name.
pub proof fn lemma_image_keeps_its_name(c: FlashView, image: Seq<char>, name: Seq<char>)
    requires
        file_name_of(image) == Some(name),
    ensures
        ends_with(remote_of(c, image), "/"@ + name),
        c.upload_dir.len() > 0 ==> begins_with(remote_of(c, image), c.upload_dir)
            && remote_of(c, image).len() == c.upload_dir.len() + 1 + name.len(),
        c.upload_dir.len() == 0 ==> begins_with(remote_of(c, image), "/tmp"@)
            && remote_of(c, image).len() == "/tmp"@.len() + 1 + name.len(),
{
    reveal_strlit("/");
    let r = remote_of(c, image);
    let dir = if c.upload_dir.len() == 0 {
        "/tmp"@
    } else {
        c.upload_dir
    };
    assert(r =~= dir + ("/"@ + name));
    assert(r.take(dir.len() as int) =~= dir);
    assert(r.skip(dir.len() as int) =~= "/"@ + name);
}

/// Every step but the first is run on the far host by the user of the plan.
pub proof fn lemma_other_steps_run_there(
    c: FlashView,
    image: Seq<char>,
    t: ImageType,
    host: Seq<char>,
    user: Seq<char>,
    i: int,
)
    requires
        0 < i < plan_steps(plan_of(c, image, t, host, user)).len(),
    ensures
        ({
            let step = plan_steps(plan_of(c, image, t, host, user))[i];
            begins_with(step, "ssh "@ + user + "@"@ + host + " '"@) && ends_with(step, "'"@)
        }),
{
    let p = plan_of(c, image, t, host, user);
    let steps = plan_steps(p);
    let step = steps[i];
    let ssh = "ssh "@ + user + "@"@ + host + " '"@;
    let run = p.tool + " "@;
    reveal_strlit("'");
    let body = if i == 1 {
        "sha256sum "@ + p.remote_path
    } else if i == steps.len() - 1 {
        run + (match t {
            ImageType::Full => p.full_image_cmd,
            ImageType::Kernel => p.kernel_image_cmd,
        })
    } else if i == 2 && p.list_devices_cmd.len() > 0 {
        run + p.list_devices_cmd
    } else {
        run + p.loader_cmd
    };
    assert(step =~= ssh + body + "'"@);
    assert(step.take(ssh.len() as int) =~= ssh);
    assert(step.skip(step.len() - 1) =~= "'"@);
}

/// The second step has the image that arrived checked.
pub proof fn lemma_second_step_checks(
    c: FlashView,
    image: Seq<char>,
    t: ImageType,
    host: Seq<char>,
    user: Seq<char>,
)
    ensures
        ({
            let steps = plan_steps(plan_of(c, image, t, host, user));
            steps.len() > 1 && ends_with(
                steps[1],
                " 'sha256sum "@ + remote_of(c, image) + "'"@,
            )
        }),
{
    let p = plan_of(c, image, t, host, user);
    let step = plan_steps(p)[1];
    let end = " 'sha256sum "@ + remote_of(c, image) + "'"@;
    let front = "ssh "@ + user + "@"@ + host;
    reveal_strlit(" 'sha256sum ");
    reveal_strlit(" '");
    reveal_strlit("sha256sum ");
    assert(" 'sha256sum "@ =~= " '"@ + "sha256sum "@);
    assert(step =~= front + end);
    assert(step.skip(front.len() as int) =~= end);
}

/// The command that is run on the far host in a step of a plan.
pub open spec fn runs(step: Seq<char>, tool: Seq<char>, command: Seq<char>) -> bool {
    ends_with(step, " '"@ + tool + " "@ + command + "'"@)
}

/// The last step writes the image that arrived: the full one or the kernel, as
/// was asked for. Before it the helper is loaded, where there is one, and
/// before that the boards are listed, where there is a command for it. There
/// is no other step.
pub proof fn lemma_last_step_writes(
    c: FlashView,
    image: Seq<char>,
    t: ImageType,
    host: Seq<char>,
    user: Seq<char>,
)
    ensures
        ({
            let steps = plan_steps(plan_of(c, image, t, host, user));
            let template = match t {
                ImageType::Full => c.full_image_cmd,
                ImageType::Kernel => c.kernel_image_cmd,
            };
            let lists = c.list_devices_cmd.len() > 0;
            let loads = c.loader_bin.len() > 0;
            &&& steps.len() == 3 + (if lists {
                1int
            } else {
                0
            }) + (if loads {
                1int
            } else {
                0
            })
            &&& runs(steps.last(), c.tool, replaced(template, "{image}"@, remote_of(c, image)))
            &&& lists ==> runs(steps[2], c.tool, c.list_devices_cmd)
            &&& loads ==> runs(
                steps[steps.len() - 2],
                c.tool,
                replaced(c.loader_cmd, "{loader}"@, c.loader_bin),
            )
        }),
{
    let p = plan_of(c, image, t, host, user);
    let steps = plan_steps(p);
    lemma_runs(p.tool, host, user, crate::flash::selected_cmd(p));
    lemma_runs(p.tool, host, user, p.list_devices_cmd);
    lemma_runs(p.tool, host, user, p.loader_cmd);
}

proof fn lemma_runs(tool: Seq<char>, host: Seq<char>, user: Seq<char>, command: Seq<char>)
    ensures
        runs("ssh "@ + user + "@"@ + host + " '"@ + tool + " "@ + command + "'"@, tool, command),
{
    let front = "ssh "@ + user + "@"@ + host;
    let end = " '"@ + tool + " "@ + command + "'"@;
    let step = "ssh "@ + user + "@"@ + host + " '"@ + tool + " "@ + command + "'"@;
    assert(step =~= front + end);
    assert(step.skip(front.len() as int) =~= end);
}

// ── What is configured ───────────────────────────────────────────────
/// Each key of the flat configuration sets one command, and no other key does.
pub proof fn lemma_keys_set_their_commands(p: Pairs, v: Seq<char>)
    ensures
        lookup(p, "FLASH_TOOL"@) == Some(v) ==> flash_of(p).tool == v,
        lookup(p, "FLASH_FULL_IMAGE_CMD"@) == Some(v) ==> flash_of(p).full_image_cmd == v,
        lookup(p, "FLASH_KERNEL_IMAGE_CMD"@) == Some(v) ==> flash_of(p).kernel_image_cmd == v,
        lookup(p, "FLASH_LOADER_BIN"@) == Some(v) ==> flash_of(p).loader_bin == v,
        lookup(p, "FLASH_LOADER_CMD"@) == Some(v) && v.len() > 0 ==> flash_of(p).loader_cmd == v,
        lookup(p, "FLASH_LIST_DEVICES_CMD"@) == Some(v) && v.len() > 0
            ==> flash_of(p).list_devices_cmd == v,
        lookup(p, "FLASH_UPLOAD_DIR"@) == Some(v) ==> flash_of(p).upload_dir == v,
        lookup(p, "FLASH_TOOL"@) is None ==> flash_of(p).tool.len() == 0,
        lookup(p, "FLASH_LOADER_BIN"@) is None ==> flash_of(p).loader_bin.len() == 0,
        lookup(p, "FLASH_FULL_IMAGE_CMD"@) is None ==> flash_of(p).full_image_cmd == "uf {image}"@,
        lookup(p, "FLASH_KERNEL_IMAGE_CMD"@) is None ==> flash_of(p).kernel_image_cmd
            == "wp kernel {image}"@,
        lookup(p, "FLASH_UPLOAD_DIR"@) is None ==> flash_of(p).upload_dir == "/tmp"@,
        flash_of(p).loader_cmd.len() > 0,
        flash_of(p).list_devices_cmd.len() > 0,
{
    reveal_strlit("");
    reveal_strlit("DB {loader}");
    reveal_strlit("LD");
}

/// The word for a kind of image names that kind.
pub proof fn lemma_words_name_their_kinds(t: ImageType)
    ensures
        image_type_of(image_word(t)) == Some(t),
{
    reveal_strlit("full");
    reveal_strlit("update");
    reveal_strlit("all");
    reveal_strlit("kernel");
    assert("kernel"@.len() == 6 && "full"@.len() == 4 && "all"@.len() == 3);
    assert("kernel"@[0] == 'k' && "update"@[0] == 'u');
}

// ── The plan as a value ──────────────────────────────────────────────
/// What is answered holds the steps of the plan for the image that was asked
/// for, and the command of the last of them. Without a tool there is no plan.
pub proof fn lemma_answer_holds_the_plan(
    values: Pairs,
    host: Seq<char>,
    image: Seq<char>,
    kind: Option<ImageType>,
)
    ensures
        ({
            let r = plan_answer(values, host, image, kind);
            let c = flash_of(values);
            let user = match lookup(values, "DEV_HOST_USER"@) {
                Some(u) => u,
                None => "linaro"@,
            };
            let t = match kind {
                Some(t) => t,
                None => ImageType::Full,
            };
            let steps = plan_steps(plan_of(c, image, t, host, user));
            r matches JsonView::Object(m) && {
                &&& member(m, "success"@) == Some(JsonView::Bool(c.tool.len() > 0))
                &&& c.tool.len() == 0 ==> member(m, "error"@) is Some && member(m, "steps"@) is None
                &&& c.tool.len() > 0 ==> {
                    &&& member(m, "steps"@) == Some(JsonView::Array(text_values(steps)))
                    &&& member(m, "local_image"@) == Some(JsonView::Text(image))
                    &&& member(m, "remote_path"@) == Some(JsonView::Text(remote_of(c, image)))
                    &&& member(m, "dev_host"@) == Some(JsonView::Text(host))
                    &&& member(m, "dev_user"@) == Some(JsonView::Text(user))
                    &&& member(m, "tool"@) == Some(JsonView::Text(c.tool))
                    &&& member(m, "image_type"@) == Some(JsonView::Text(image_word(t)))
                    &&& member(m, "selected_flash_cmd"@) matches Some(JsonView::Text(x)) && runs(
                        steps.last(),
                        c.tool,
                        x,
                    )
                }
            }
        }),
{
    let c = flash_of(values);
    let user = crate::flash::value_or(values, "DEV_HOST_USER"@, "linaro"@);
    let t = match kind {
        Some(t) => t,
        None => ImageType::Full,
    };
    lemma_last_step_writes(c, image, t, host, user);
    reveal_with_fuel(crate::config::member_from, 16);
    reveal_strlit("success");
    reveal_strlit("error");
    reveal_strlit("tool");
    reveal_strlit("local_image");
    reveal_strlit("remote_path");
    reveal_strlit("dev_host");
    reveal_strlit("dev_user");
    reveal_strlit("upload_dir");
    reveal_strlit("image_type");
    reveal_strlit("full_image_cmd");
    reveal_strlit("kernel_image_cmd");
    reveal_strlit("selected_flash_cmd");
    reveal_strlit("loader_bin");
    reveal_strlit("loader_cmd");
    reveal_strlit("list_devices_cmd");
    reveal_strlit("steps");
    assert("success"@.len() == 7 && "error"@.len() == 5 && "tool"@.len() == 4);
    assert("local_image"@.len() == 11 && "remote_path"@.len() == 11 && "dev_host"@.len() == 8);
    assert("dev_user"@.len() == 8 && "upload_dir"@.len() == 10 && "image_type"@.len() == 10);
    assert("full_image_cmd"@.len() == 14 && "kernel_image_cmd"@.len() == 16);
    assert("selected_flash_cmd"@.len() == 18 && "loader_bin"@.len() == 10);
    assert("loader_cmd"@.len() == 10 && "list_devices_cmd"@.len() == 16 && "steps"@.len() == 5);
    assert("local_image"@[0] == 'l' && "remote_path"@[0] == 'r');
    assert("dev_host"@[4] == 'h' && "dev_user"@[4] == 'u');
    assert("upload_dir"@[0] == 'u' && "image_type"@[0] == 'i');
    assert("error"@[0] == 'e' && "steps"@[0] == 's');
}

} // verus!
