//! The script that a worker box boots into.

use crate::hetzner::env::{env_view, EnvVars, EnvView};
use crate::text::{
    chars_of, contains_char, copy, occurs, occurs_at, split, split_at_each, trim, trimmed,
};
use vstd::prelude::*;

verus! {

/// What a worker box needs to know.
#[derive(Debug)]
pub struct WorkerBootstrap {
    /// The docker image, with its tag.
    pub image: String,
    /// The name of the sweep.
    pub sweep_id: String,
    /// The account of the bucket.
    pub r2_account_id: String,
    /// The bucket that the sweep works in.
    pub r2_bucket: String,
    /// The scoped access key.
    pub r2_access_key_id: String,
    /// The scoped secret.
    pub r2_secret_access_key: String,
    /// The scoped session token; requests are refused without it.
    pub r2_session_token: String,
    /// The user of the registry; none for a public image.
    pub registry_username: Option<String>,
    /// The password of the registry.
    pub registry_password: Option<String>,
    /// The registry; `ghcr.io` where none is given.
    pub registry_server: Option<String>,
    /// Further variables of the container.
    pub extra_env: EnvVars,
    /// Where in the bucket the chunks wait.
    pub chunks_queue_prefix: String,
    /// A key that may log in as root.
    pub ssh_authorized_pubkey: Option<String>,
}

// ── Quoting for the shell ──────────────────────────────────────────────

/// One character inside single quotes: a quote closes them, stands escaped, and
/// opens them again.
pub open spec fn quoted_char(c: char) -> Seq<char> {
    if c == '\'' {
        seq!['\'', '\\', '\'', '\'']
    } else {
        seq![c]
    }
}

/// Characters inside single quotes.
pub open spec fn quoted_chars(s: Seq<char>) -> Seq<char>
    decreases s.len(),
{
    if s.len() == 0 {
        Seq::<char>::empty()
    } else {
        quoted_chars(s.drop_last()) + quoted_char(s.last())
    }
}

/// A text as one argument of a shell.
pub open spec fn squoted(s: Seq<char>) -> Seq<char> {
    seq!['\''] + quoted_chars(s) + seq!['\'']
}

/// A text as one argument of a shell.
pub fn sh_squote(s: &str) -> (r: String)
    ensures
        r@ == squoted(s@),
{
    let a = chars_of(s);
    let mut out: String = String::new();
    out.push('\'');
    let mut i: usize = 0;
    assert(out@ =~= seq!['\''] + quoted_chars(s@.take(0)));
    while i < a.len()
        invariant
            i <= a.len(),
            a@ == s@,
            out@ == seq!['\''] + quoted_chars(s@.take(i as int)),
        decreases a.len() - i,
    {
        assert(s@.take(i + 1).drop_last() =~= s@.take(i as int));
        let ghost before = out@;
        if a[i] == '\'' {
            out.push('\'');
            out.push('\\');
            out.push('\'');
            out.push('\'');
        } else {
            out.push(a[i]);
        }
        i += 1;
        assert(out@ =~= before + quoted_char(s@[i - 1]));
        assert(out@ =~= seq!['\''] + quoted_chars(s@.take(i as int)));
    }
    assert(s@.take(i as int) =~= s@);
    out.push('\'');
    assert(out@ =~= squoted(s@));
    out
}

/// What a shell makes of a word of single-quoted parts and escaped characters;
/// none where a quote stays open or a character stands bare.
pub open spec fn unquoted(s: Seq<char>, inside: bool) -> Option<Seq<char>>
    decreases s.len(),
{
    if s.len() == 0 {
        if inside {
            None
        } else {
            Some(Seq::<char>::empty())
        }
    } else if s[0] == '\'' {
        unquoted(s.skip(1), !inside)
    } else if inside {
        led_by(seq![s[0]], unquoted(s.skip(1), true))
    } else if s[0] == '\\' && s.len() > 1 {
        led_by(seq![s[1]], unquoted(s.skip(2), false))
    } else {
        None
    }
}

/// `a` before what follows.
pub open spec fn led_by(a: Seq<char>, rest: Option<Seq<char>>) -> Option<Seq<char>> {
    match rest {
        Some(r) => Some(a + r),
        None => None,
    }
}

proof fn lemma_unquoted_char(c: char, tail: Seq<char>)
    ensures
        unquoted(quoted_char(c) + tail, true) == led_by(seq![c], unquoted(tail, true)),
{
    let s = quoted_char(c) + tail;
    if c == '\'' {
        assert(s.skip(1).skip(2).skip(1) =~= tail);
        assert(s.skip(1)[0] == '\\' && s.skip(1)[1] == '\'');
        assert(s.skip(1).skip(2)[0] == '\'');
        reveal_with_fuel(unquoted, 4);
    } else {
        assert(s.skip(1) =~= tail);
    }
}

proof fn lemma_unquoted_chars(s: Seq<char>, tail: Seq<char>)
    ensures
        unquoted(quoted_chars(s) + tail, true) == led_by(s, unquoted(tail, true)),
    decreases s.len(),
{
    if s.len() == 0 {
        assert(quoted_chars(s) + tail =~= tail);
        assert(led_by(s, unquoted(tail, true)) =~= unquoted(tail, true)) by {
            match unquoted(tail, true) {
                Some(r) => {
                    assert(s + r =~= r);
                },
                None => {},
            }
        }
    } else {
        let c = s.last();
        assert(quoted_chars(s) + tail =~= quoted_chars(s.drop_last()) + (quoted_char(c) + tail));
        lemma_unquoted_chars(s.drop_last(), quoted_char(c) + tail);
        lemma_unquoted_char(c, tail);
        match unquoted(tail, true) {
            Some(r) => {
                assert(s.drop_last() + (seq![c] + r) =~= s + r);
            },
            None => {},
        }
    }
}

/// A shell reads a quoted text back as the text itself, whatever it holds.
pub proof fn law_shell_reads_quoted_text(s: Seq<char>)
    ensures
        unquoted(squoted(s), false) == Some(s),
{
    let tail = seq!['\''];
    assert(squoted(s)[0] == '\'');
    assert(squoted(s).skip(1) =~= quoted_chars(s) + tail);
    lemma_unquoted_chars(s, tail);
    assert(tail.skip(1) =~= Seq::<char>::empty());
    reveal_with_fuel(unquoted, 2);
    assert(unquoted(tail, true) == Some(Seq::<char>::empty()));
    assert(s + Seq::<char>::empty() =~= s);
}

// ── Variables of the container ─────────────────────────────────────────

/// One line of the file with the variables.
pub open spec fn env_line(k: Seq<char>, v: Seq<char>) -> Seq<char> {
    k + seq!['='] + v + seq!['\n']
}

/// Adds one line to the file with the variables.
pub fn push_env_line(out: &mut String, k: &str, v: &str)
    ensures
        final(out)@ == old(out)@ + env_line(k@, v@),
{
    let ghost before = out@;
    out.append(k);
    out.push('=');
    out.append(v);
    out.push('\n');
    assert(out@ =~= before + env_line(k@, v@));
}

/// The lines of a list of variables.
pub open spec fn env_lines(s: EnvView) -> Seq<char>
    decreases s.len(),
{
    if s.len() == 0 {
        Seq::<char>::empty()
    } else {
        env_lines(s.drop_last()) + env_line(s.last().0, s.last().1)
    }
}

/// The manifest of the sweep's chunks.
pub open spec fn chunks_uri(bucket: Seq<char>, sweep: Seq<char>) -> Seq<char> {
    "s3://"@ + bucket + "/runs/"@ + sweep + "/chunks.jsonl"@
}

/// The manifest of the sweep's chunks.
pub fn chunks_manifest(bucket: &str, sweep: &str) -> (r: String)
    ensures
        r@ == chunks_uri(bucket@, sweep@),
{
    let mut u: String = copy("s3://");
    u.append(bucket);
    u.append("/runs/");
    u.append(sweep);
    u.append("/chunks.jsonl");
    u
}

/// The variables that every worker has.
pub open spec fn fixed_env(boot: WorkerBootstrap) -> EnvView {
    seq![
        ("SWEEP_RUN_ID"@, boot.sweep_id@),
        ("WORKER_BACKEND"@, "hetzner"@),
        ("R2_ACCOUNT_ID"@, boot.r2_account_id@),
        ("R2_ACCESS_KEY_ID"@, boot.r2_access_key_id@),
        ("R2_SECRET_ACCESS_KEY"@, boot.r2_secret_access_key@),
        ("AWS_SESSION_TOKEN"@, boot.r2_session_token@),
        ("R2_SESSION_TOKEN"@, boot.r2_session_token@),
        ("CHUNKS_QUEUE_PREFIX"@, boot.chunks_queue_prefix@),
        ("CHUNKS_R2"@, chunks_uri(boot.r2_bucket@, boot.sweep_id@)),
        ("BUCKET"@, boot.r2_bucket@),
        ("RUST_LOG"@, "info,zencloud_hetzner=info"@),
    ]
}

/// Adds one variable to the script.
fn add_var(out: &mut String, k: &str, v: &str, Ghost(done): Ghost<EnvView>, Ghost(base): Ghost<Seq<char>>)
    requires
        old(out)@ == base + env_lines(done),
    ensures
        final(out)@ == base + env_lines(done.push((k@, v@))),
{
    push_env_line(out, k, v);
    proof {
        assert(done.push((k@, v@)).drop_last() =~= done);
        assert(out@ =~= base + env_lines(done.push((k@, v@))));
    }
}

// ── The parts of the script ────────────────────────────────────────────

/// The head of the script.
pub open spec fn head_part(sweep: Seq<char>) -> Seq<char> {
    "#!/bin/bash\n# zencloud-hetzner worker bootstrap (cloud-init user_data)\n# sweep_id="@ + sweep
        + "\nset -eu\nexec > >(tee -a /var/log/zen-bootstrap.log) 2>&1\necho \"[$(date -u +%Y-%m-%dT%H:%M:%SZ)] zen-bootstrap starting\"\n\n"@
}

/// The usable part of a key: its first line without blanks around it.
pub open spec fn clean_key(key: Seq<char>) -> Seq<char> {
    trimmed(split_at_each(key, '\n')[0])
}

/// Can the key be put into the script?
pub open spec fn key_usable(key: Seq<char>) -> bool {
    clean_key(key).len() > 0 && !clean_key(key).contains('\'')
}

/// The part that admits a key. It stands before everything that can hang, and a
/// key that is blank or holds a quote is left out.
pub open spec fn key_part(key: Option<String>) -> Seq<char> {
    match key {
        Some(k) => if key_usable(k@) {
            "# Diagnostic SSH key (launcher-side debugger).\nmkdir -p /root/.ssh\nchmod 700 /root/.ssh\necho "@
                + squoted(clean_key(k@))
                + " >> /root/.ssh/authorized_keys\nchmod 600 /root/.ssh/authorized_keys\n\n"@
        } else {
            Seq::<char>::empty()
        },
        None => Seq::<char>::empty(),
    }
}

/// The part that installs docker.
pub open spec fn docker_part() -> Seq<char> {
    "# Install docker (the one apt install we can't bake).\nexport DEBIAN_FRONTEND=noninteractive\napt-get update -qq\napt-get install -y -qq docker.io curl\nsystemctl enable --now docker\n\n"@
}

/// The registry to log in to.
pub open spec fn registry_of(server: Option<String>) -> Seq<char> {
    match server {
        Some(s) => s@,
        None => "ghcr.io"@,
    }
}

/// The part that logs in to the registry; only with a user and a password.
pub open spec fn login_part(
    user: Option<String>,
    pass: Option<String>,
    server: Option<String>,
) -> Seq<char> {
    match (user, pass) {
        (Some(u), Some(p)) => "# Registry login (private image).\nprintf '%s' "@ + squoted(p@)
            + " | docker login "@ + squoted(registry_of(server)) + " -u "@ + squoted(u@)
            + " --password-stdin\n\n"@,
        _ => "# (No registry login — assume image is public.)\n\n"@,
    }
}

/// The part that pulls the image, twice where the first try fails.
pub open spec fn pull_part(image: Seq<char>) -> Seq<char> {
    "# Pull worker image (retry once on transient registry hiccup).\ndocker pull "@ + squoted(image)
        + " || (sleep 5 && docker pull "@ + squoted(image) + ")\n\n"@
}

/// What stands before the variables.
pub open spec fn env_head() -> Seq<char> {
    "# Write env file for the worker container (out of /proc/<pid>/cmdline).\nmkdir -p /etc/zen\ncat >/etc/zen/worker.env <<'ZEN_EOF'\n"@
}

/// The part that starts the worker.
pub open spec fn run_part(
    image: Seq<char>,
    sweep: Seq<char>,
    bucket: Seq<char>,
) -> Seq<char> {
    "ZEN_EOF\n\n# Launch the worker.\ndocker run -d \\\n    --name=worker \\\n    --restart=on-failure:5 \\\n    --env-file=/etc/zen/worker.env \\\n    --hostname=zen-hetzner-$(hostname) \\\n    "@
        + squoted(image)
        + " \\\n    /usr/local/bin/zen-sweep-worker worker --backend hetzner \\\n        --run-id "@
        + squoted(sweep) + " \\\n        --chunks-r2 "@ + squoted(chunks_uri(bucket, sweep))
        + "\n\necho \"[$(date -u +%Y-%m-%dT%H:%M:%SZ)] zen-bootstrap done; worker container launched\"\n"@
}

/// The script of a worker box.
pub open spec fn user_data(boot: WorkerBootstrap) -> Seq<char> {
    head_part(boot.sweep_id@) + key_part(boot.ssh_authorized_pubkey) + docker_part() + login_part(
        boot.registry_username,
        boot.registry_password,
        boot.registry_server,
    ) + pull_part(boot.image@) + env_head() + env_lines(fixed_env(boot) + boot.extra_env@)
        + run_part(boot.image@, boot.sweep_id@, boot.r2_bucket@)
}

/// The part that admits a key.
fn build_key_part(key: &Option<String>) -> (r: String)
    ensures
        r@ == key_part(*key),
{
    match key {
        Some(k) => {
            let lines = split(k.as_str(), '\n');
            assert(crate::text::views(lines@)[0] == lines@[0]@);
            let cleaned = trim(lines[0].as_str());
            if !cleaned.as_str().is_empty() && !contains_char(cleaned.as_str(), '\'') {
                let mut s: String = copy(
                    "# Diagnostic SSH key (launcher-side debugger).\nmkdir -p /root/.ssh\nchmod 700 /root/.ssh\necho ",
                );
                let q = sh_squote(cleaned.as_str());
                s.append(q.as_str());
                s.append(
                    " >> /root/.ssh/authorized_keys\nchmod 600 /root/.ssh/authorized_keys\n\n",
                );
                return s;
            }
            let s: String = String::new();
            assert(s@ =~= Seq::<char>::empty());
            s
        },
        None => {
            let s: String = String::new();
            assert(s@ =~= Seq::<char>::empty());
            s
        },
    }
}

/// The part that logs in to the registry.
fn build_login_part(user: &Option<String>, pass: &Option<String>, server: &Option<String>) -> (r:
    String)
    ensures
        r@ == login_part(*user, *pass, *server),
{
    match (user, pass) {
        (Some(u), Some(p)) => {
            let mut s: String = copy("# Registry login (private image).\nprintf '%s' ");
            let qp = sh_squote(p.as_str());
            s.append(qp.as_str());
            s.append(" | docker login ");
            let qs = match server {
                Some(x) => sh_squote(x.as_str()),
                None => sh_squote("ghcr.io"),
            };
            s.append(qs.as_str());
            s.append(" -u ");
            let qu = sh_squote(u.as_str());
            s.append(qu.as_str());
            s.append(" --password-stdin\n\n");
            s
        },
        _ => copy("# (No registry login — assume image is public.)\n\n"),
    }
}

/// The lines of all variables.
fn build_env_lines(boot: &WorkerBootstrap) -> (r: String)
    ensures
        r@ == env_lines(fixed_env(*boot) + boot.extra_env@),
{
    let mut s: String = String::new();
    let ghost base = Seq::<char>::empty();
    let ghost mut done = EnvView::empty();
    assert(s@ =~= base + env_lines(done));
    let uri = chunks_manifest(boot.r2_bucket.as_str(), boot.sweep_id.as_str());
    add_var(&mut s, "SWEEP_RUN_ID", boot.sweep_id.as_str(), Ghost(done), Ghost(base));
    proof {
        done = done.push(("SWEEP_RUN_ID"@, boot.sweep_id@));
    }
    add_var(&mut s, "WORKER_BACKEND", "hetzner", Ghost(done), Ghost(base));
    proof {
        done = done.push(("WORKER_BACKEND"@, "hetzner"@));
    }
    add_var(&mut s, "R2_ACCOUNT_ID", boot.r2_account_id.as_str(), Ghost(done), Ghost(base));
    proof {
        done = done.push(("R2_ACCOUNT_ID"@, boot.r2_account_id@));
    }
    add_var(&mut s, "R2_ACCESS_KEY_ID", boot.r2_access_key_id.as_str(), Ghost(done), Ghost(base));
    proof {
        done = done.push(("R2_ACCESS_KEY_ID"@, boot.r2_access_key_id@));
    }
    add_var(
        &mut s,
        "R2_SECRET_ACCESS_KEY",
        boot.r2_secret_access_key.as_str(),
        Ghost(done),
        Ghost(base),
    );
    proof {
        done = done.push(("R2_SECRET_ACCESS_KEY"@, boot.r2_secret_access_key@));
    }
    add_var(&mut s, "AWS_SESSION_TOKEN", boot.r2_session_token.as_str(), Ghost(done), Ghost(base));
    proof {
        done = done.push(("AWS_SESSION_TOKEN"@, boot.r2_session_token@));
    }
    add_var(&mut s, "R2_SESSION_TOKEN", boot.r2_session_token.as_str(), Ghost(done), Ghost(base));
    proof {
        done = done.push(("R2_SESSION_TOKEN"@, boot.r2_session_token@));
    }
    add_var(
        &mut s,
        "CHUNKS_QUEUE_PREFIX",
        boot.chunks_queue_prefix.as_str(),
        Ghost(done),
        Ghost(base),
    );
    proof {
        done = done.push(("CHUNKS_QUEUE_PREFIX"@, boot.chunks_queue_prefix@));
    }
    add_var(&mut s, "CHUNKS_R2", uri.as_str(), Ghost(done), Ghost(base));
    proof {
        done = done.push(("CHUNKS_R2"@, uri@));
    }
    add_var(&mut s, "BUCKET", boot.r2_bucket.as_str(), Ghost(done), Ghost(base));
    proof {
        done = done.push(("BUCKET"@, boot.r2_bucket@));
    }
    add_var(&mut s, "RUST_LOG", "info,zencloud_hetzner=info", Ghost(done), Ghost(base));
    proof {
        done = done.push(("RUST_LOG"@, "info,zencloud_hetzner=info"@));
        assert(done =~= fixed_env(*boot));
    }
    let ghost extra = boot.extra_env@;
    let mut i: usize = 0;
    assert(done + extra.take(0) =~= done);
    while i < boot.extra_env.pairs.len()
        invariant
            i <= boot.extra_env.pairs.len(),
            extra == env_view(boot.extra_env.pairs@),
            s@ == base + env_lines(done + extra.take(i as int)),
        decreases boot.extra_env.pairs.len() - i,
    {
        let p = &boot.extra_env.pairs[i];
        add_var(
            &mut s,
            p.0.as_str(),
            p.1.as_str(),
            Ghost(done + extra.take(i as int)),
            Ghost(base),
        );
        i += 1;
        assert((done + extra.take(i - 1)).push(extra[i - 1]) =~= done + extra.take(i as int));
    }
    assert(extra.take(i as int) =~= extra);
    assert(base + env_lines(done + extra) =~= env_lines(done + extra));
    s
}

/// The part that starts the worker.
fn build_run_part(image: &str, sweep: &str, bucket: &str) -> (r: String)
    ensures
        r@ == run_part(image@, sweep@, bucket@),
{
    let mut s: String = copy(
        "ZEN_EOF\n\n# Launch the worker.\ndocker run -d \\\n    --name=worker \\\n    --restart=on-failure:5 \\\n    --env-file=/etc/zen/worker.env \\\n    --hostname=zen-hetzner-$(hostname) \\\n    ",
    );
    let qi = sh_squote(image);
    s.append(qi.as_str());
    s.append(
        " \\\n    /usr/local/bin/zen-sweep-worker worker --backend hetzner \\\n        --run-id ",
    );
    let qs = sh_squote(sweep);
    s.append(qs.as_str());
    s.append(" \\\n        --chunks-r2 ");
    let uri = chunks_manifest(bucket, sweep);
    let qu = sh_squote(uri.as_str());
    s.append(qu.as_str());
    s.append(
        "\n\necho \"[$(date -u +%Y-%m-%dT%H:%M:%SZ)] zen-bootstrap done; worker container launched\"\n",
    );
    s
}

/// The script of a worker box.
pub fn build_user_data(boot: &WorkerBootstrap) -> (r: String)
    ensures
        r@ == user_data(*boot),
{
    let mut script: String = copy(
        "#!/bin/bash\n# zencloud-hetzner worker bootstrap (cloud-init user_data)\n# sweep_id=",
    );
    script.append(boot.sweep_id.as_str());
    script.append(
        "\nset -eu\nexec > >(tee -a /var/log/zen-bootstrap.log) 2>&1\necho \"[$(date -u +%Y-%m-%dT%H:%M:%SZ)] zen-bootstrap starting\"\n\n",
    );
    assert(script@ == head_part(boot.sweep_id@));
    let key = build_key_part(&boot.ssh_authorized_pubkey);
    script.append(key.as_str());
    script.append(
        "# Install docker (the one apt install we can't bake).\nexport DEBIAN_FRONTEND=noninteractive\napt-get update -qq\napt-get install -y -qq docker.io curl\nsystemctl enable --now docker\n\n",
    );
    let login = build_login_part(
        &boot.registry_username,
        &boot.registry_password,
        &boot.registry_server,
    );
    script.append(login.as_str());
    let mut pull: String = copy(
        "# Pull worker image (retry once on transient registry hiccup).\ndocker pull ",
    );
    let image = sh_squote(boot.image.as_str());
    pull.append(image.as_str());
    pull.append(" || (sleep 5 && docker pull ");
    pull.append(image.as_str());
    pull.append(")\n\n");
    assert(pull@ == pull_part(boot.image@));
    script.append(pull.as_str());
    script.append(
        "# Write env file for the worker container (out of /proc/<pid>/cmdline).\nmkdir -p /etc/zen\ncat >/etc/zen/worker.env <<'ZEN_EOF'\n",
    );
    let env = build_env_lines(boot);
    script.append(env.as_str());
    let tail = build_run_part(
        boot.image.as_str(),
        boot.sweep_id.as_str(),
        boot.r2_bucket.as_str(),
    );
    script.append(tail.as_str());
    script
}

// ── Laws of the script ─────────────────────────────────────────────────

/// A key that is blank or holds a quote never reaches the script: the script is
/// the same as without a key.
pub proof fn law_unusable_key_left_out(with_key: WorkerBootstrap, without: WorkerBootstrap)
    requires
        with_key.ssh_authorized_pubkey matches Some(k) && !key_usable(k@),
        without == (WorkerBootstrap { ssh_authorized_pubkey: None, ..with_key }),
    ensures
        user_data(with_key) == user_data(without),
{
    assert(fixed_env(with_key) =~= fixed_env(without));
}

/// The password of the registry does not reach the script without a user, nor the
/// user without a password.
pub proof fn law_login_needs_both(a: WorkerBootstrap, b: WorkerBootstrap)
    requires
        a.registry_username is None || a.registry_password is None,
        b == (WorkerBootstrap {
            registry_username: None,
            registry_password: None,
            registry_server: None,
            ..a
        }),
    ensures
        user_data(a) == user_data(b),
{
    assert(fixed_env(a) =~= fixed_env(b));
}

// ── Laws of the bootstrap ──────────────────────────────────────────────

proof fn lemma_occurs_between(a: Seq<char>, p: Seq<char>, b: Seq<char>)
    ensures
        occurs(a + p + b, p),
{
    let s = a + p + b;
    let i = a.len() as int;
    assert(s.subrange(i, i + p.len()) =~= p);
    assert(occurs_at(s, p, i));
}

proof fn lemma_occurs_within(a: Seq<char>, s: Seq<char>, b: Seq<char>, p: Seq<char>)
    requires
        occurs(s, p),
    ensures
        occurs(a + s + b, p),
{
    let i = choose|i: int| occurs_at(s, p, i);
    let t = a + s + b;
    let k = a.len() + i;
    assert(t.subrange(k, k + p.len()) =~= s.subrange(i, i + p.len()));
    assert(occurs_at(t, p, k));
}

proof fn lemma_env_line_occurs(s: EnvView, i: int)
    requires
        0 <= i < s.len(),
    ensures
        occurs(env_lines(s), env_line(s[i].0, s[i].1)),
    decreases s.len(),
{
    let front = s.drop_last();
    let line = env_line(s.last().0, s.last().1);
    let none = Seq::<char>::empty();
    if i < front.len() {
        lemma_env_line_occurs(front, i);
        assert(front[i] == s[i]);
        lemma_occurs_within(none, env_lines(front), line, env_line(s[i].0, s[i].1));
        assert(none + env_lines(front) + line =~= env_lines(s));
    } else {
        lemma_occurs_between(env_lines(front), line, none);
        assert(env_lines(front) + line + none =~= env_lines(s));
    }
}

/// The container gets each of its variables: the line of every pair stands in the
/// bootstrap.
pub proof fn law_container_gets_variable(boot: WorkerBootstrap, i: int)
    requires
        0 <= i < (fixed_env(boot) + boot.extra_env@).len(),
    ensures
        ({
            let all = fixed_env(boot) + boot.extra_env@;
            occurs(user_data(boot), env_line(all[i].0, all[i].1))
        }),
{
    let all = fixed_env(boot) + boot.extra_env@;
    lemma_env_line_occurs(all, i);
    let a = head_part(boot.sweep_id@) + key_part(boot.ssh_authorized_pubkey) + docker_part()
        + login_part(boot.registry_username, boot.registry_password, boot.registry_server)
        + pull_part(boot.image@) + env_head();
    let b = run_part(boot.image@, boot.sweep_id@, boot.r2_bucket@);
    lemma_occurs_within(a, env_lines(all), b, env_line(all[i].0, all[i].1));
    assert(a + env_lines(all) + b =~= user_data(boot));
}

/// The container works for its own sweep and bucket, with the scoped credentials and
/// nothing else in their place.
pub proof fn law_container_has_scoped_credentials(boot: WorkerBootstrap)
    ensures
        fixed_env(boot).contains(("SWEEP_RUN_ID"@, boot.sweep_id@)),
        fixed_env(boot).contains(("BUCKET"@, boot.r2_bucket@)),
        fixed_env(boot).contains(("R2_ACCOUNT_ID"@, boot.r2_account_id@)),
        fixed_env(boot).contains(("R2_ACCESS_KEY_ID"@, boot.r2_access_key_id@)),
        fixed_env(boot).contains(("R2_SECRET_ACCESS_KEY"@, boot.r2_secret_access_key@)),
        fixed_env(boot).contains(("R2_SESSION_TOKEN"@, boot.r2_session_token@)),
        fixed_env(boot).contains(("AWS_SESSION_TOKEN"@, boot.r2_session_token@)),
        fixed_env(boot).contains(("CHUNKS_QUEUE_PREFIX"@, boot.chunks_queue_prefix@)),
        fixed_env(boot).contains(
            ("CHUNKS_R2"@, "s3://"@ + boot.r2_bucket@ + "/runs/"@ + boot.sweep_id@
                + "/chunks.jsonl"@),
        ),
{
    let e = fixed_env(boot);
    assert(e[0].0 == "SWEEP_RUN_ID"@ && e[2].0 == "R2_ACCOUNT_ID"@ && e[3].0 == "R2_ACCESS_KEY_ID"@
        && e[4].0 == "R2_SECRET_ACCESS_KEY"@ && e[5].0 == "AWS_SESSION_TOKEN"@ && e[6].0
        == "R2_SESSION_TOKEN"@ && e[7].0 == "CHUNKS_QUEUE_PREFIX"@ && e[8].0 == "CHUNKS_R2"@
        && e[9].0 == "BUCKET"@);
}

/// The image that is pulled and run is the one that was asked for, and the worker is told
/// its sweep, each as one word of the shell.
pub proof fn law_worker_runs_its_image(boot: WorkerBootstrap)
    ensures
        occurs(user_data(boot), "docker pull "@ + squoted(boot.image@)),
        occurs(user_data(boot), "--run-id "@ + squoted(boot.sweep_id@)),
{
    let head = head_part(boot.sweep_id@) + key_part(boot.ssh_authorized_pubkey) + docker_part()
        + login_part(boot.registry_username, boot.registry_password, boot.registry_server);
    let pull = pull_part(boot.image@);
    let mid = env_head() + env_lines(fixed_env(boot) + boot.extra_env@);
    let run = run_part(boot.image@, boot.sweep_id@, boot.r2_bucket@);
    let none = Seq::<char>::empty();
    reveal_strlit(
        "# Pull worker image (retry once on transient registry hiccup).\ndocker pull ",
    );
    reveal_strlit(" || (sleep 5 && docker pull ");
    reveal_strlit("docker pull ");
    reveal_strlit("--run-id ");
    reveal_strlit(
        " \\\n    /usr/local/bin/zen-sweep-worker worker --backend hetzner \\\n        --run-id ",
    );
    let lead = " || (sleep 5 && docker pull "@;
    let p = "docker pull "@ + squoted(boot.image@);
    let x = "# Pull worker image (retry once on transient registry hiccup).\ndocker pull "@ + squoted(
        boot.image@,
    ) + lead.take(lead.len() - "docker pull "@.len());
    assert(lead =~= lead.take(lead.len() - "docker pull "@.len()) + "docker pull "@);
    assert(pull =~= x + p + ")\n\n"@);
    lemma_occurs_between(x, p, ")\n\n"@);
    lemma_occurs_within(head, pull, mid + run, p);
    assert(head + pull + (mid + run) =~= user_data(boot));
    let worker =
        " \\\n    /usr/local/bin/zen-sweep-worker worker --backend hetzner \\\n        --run-id "@;
    let q = "--run-id "@ + squoted(boot.sweep_id@);
    let n = "--run-id "@.len();
    assert(worker =~= worker.take(worker.len() - n) + "--run-id "@);
    let y =
        "ZEN_EOF\n\n# Launch the worker.\ndocker run -d \\\n    --name=worker \\\n    --restart=on-failure:5 \\\n    --env-file=/etc/zen/worker.env \\\n    --hostname=zen-hetzner-$(hostname) \\\n    "@
        + squoted(boot.image@) + worker.take(worker.len() - n);
    let z = " \\\n        --chunks-r2 "@ + squoted(chunks_uri(boot.r2_bucket@, boot.sweep_id@))
        + "\n\necho \"[$(date -u +%Y-%m-%dT%H:%M:%SZ)] zen-bootstrap done; worker container launched\"\n"@;
    assert(run =~= y + q + z);
    lemma_occurs_between(y, q, z);
    lemma_occurs_within(head + pull + mid, run, none, q);
    assert(head + pull + mid + run + none =~= user_data(boot));
}

/// A private image is logged in for with its own user and password, each as one word of
/// the shell.
pub proof fn law_login_uses_own_password(boot: WorkerBootstrap, u: String, p: String)
    requires
        boot.registry_username == Some(u),
        boot.registry_password == Some(p),
    ensures
        occurs(user_data(boot), " -u "@ + squoted(u@) + " --password-stdin"@),
        occurs(user_data(boot), "printf '%s' "@ + squoted(p@) + " | docker login "@),
{
    let head = head_part(boot.sweep_id@) + key_part(boot.ssh_authorized_pubkey) + docker_part();
    let login = login_part(boot.registry_username, boot.registry_password, boot.registry_server);
    let rest = pull_part(boot.image@) + env_head() + env_lines(fixed_env(boot) + boot.extra_env@)
        + run_part(boot.image@, boot.sweep_id@, boot.r2_bucket@);
    reveal_strlit("# Registry login (private image).\nprintf '%s' ");
    reveal_strlit("printf '%s' ");
    reveal_strlit(" --password-stdin\n\n");
    reveal_strlit(" --password-stdin");
    let lead = "# Registry login (private image).\nprintf '%s' "@;
    let n = "printf '%s' "@.len();
    let m = " --password-stdin"@.len() as int;
    let end = " --password-stdin\n\n"@;
    assert(lead =~= lead.take(lead.len() - n) + "printf '%s' "@);
    assert(end =~= " --password-stdin"@ + end.skip(m));
    let server = squoted(registry_of(boot.registry_server));
    let a = "printf '%s' "@ + squoted(p@) + " | docker login "@;
    let b = " -u "@ + squoted(u@) + " --password-stdin"@;
    assert(login =~= lead.take(lead.len() - n) + a + (server + b + end.skip(m)));
    lemma_occurs_between(lead.take(lead.len() - n), a, server + b + end.skip(m));
    assert(login =~= (lead.take(lead.len() - n) + a + server) + b + end.skip(m));
    lemma_occurs_between(lead.take(lead.len() - n) + a + server, b, end.skip(m));
    lemma_occurs_within(head, login, rest, a);
    lemma_occurs_within(head, login, rest, b);
    assert(head + login + rest =~= user_data(boot));
}

/// The variables stand one in a line, in their order, and nothing else does.
pub proof fn law_env_lines_one_by_one(s: EnvView, k: Seq<char>, v: Seq<char>)
    ensures
        env_lines(s.push((k, v))) == env_lines(s) + (k + seq!['='] + v + seq!['\n']),
        env_lines(EnvView::empty()).len() == 0,
{
    assert(s.push((k, v)).drop_last() =~= s);
}

/// A key that can be used may log in: its first line, trimmed, goes to the list of keys as
/// one word of the shell. Further lines make no difference.
pub proof fn law_key_may_log_in(
    boot: WorkerBootstrap,
    longer: WorkerBootstrap,
    key: String,
    more: String,
    rest: Seq<char>,
)
    requires
        boot.ssh_authorized_pubkey == Some(key),
        !key@.contains('\n'),
        !key@.contains('\''),
        trimmed(key@).len() > 0,
        !trimmed(key@).contains('\''),
        more@ == key@ + seq!['\n'] + rest,
        longer == (WorkerBootstrap { ssh_authorized_pubkey: Some(more), ..boot }),
    ensures
        occurs(
            user_data(boot),
            "echo "@ + squoted(trimmed(key@)) + " >> /root/.ssh/authorized_keys\n"@,
        ),
        user_data(longer) == user_data(boot),
{
    lemma_first_line(key@, rest);
    lemma_only_line(key@);
    let lead =
        "# Diagnostic SSH key (launcher-side debugger).\nmkdir -p /root/.ssh\nchmod 700 /root/.ssh\necho "@;
    let end = " >> /root/.ssh/authorized_keys\nchmod 600 /root/.ssh/authorized_keys\n\n"@;
    reveal_strlit(
        "# Diagnostic SSH key (launcher-side debugger).\nmkdir -p /root/.ssh\nchmod 700 /root/.ssh\necho ",
    );
    reveal_strlit("echo ");
    reveal_strlit(" >> /root/.ssh/authorized_keys\n");
    reveal_strlit(" >> /root/.ssh/authorized_keys\nchmod 600 /root/.ssh/authorized_keys\n\n");
    let n = "echo "@.len();
    let m = " >> /root/.ssh/authorized_keys\n"@.len() as int;
    let p = "echo "@ + squoted(trimmed(key@)) + " >> /root/.ssh/authorized_keys\n"@;
    assert(lead =~= lead.take(lead.len() - n) + "echo "@);
    assert(end =~= " >> /root/.ssh/authorized_keys\n"@ + end.skip(m));
    let part = key_part(boot.ssh_authorized_pubkey);
    assert(part =~= lead.take(lead.len() - n) + p + end.skip(m));
    lemma_occurs_between(lead.take(lead.len() - n), p, end.skip(m));
    let head = head_part(boot.sweep_id@);
    let tail = docker_part() + login_part(
        boot.registry_username,
        boot.registry_password,
        boot.registry_server,
    ) + pull_part(boot.image@) + env_head() + env_lines(fixed_env(boot) + boot.extra_env@)
        + run_part(boot.image@, boot.sweep_id@, boot.r2_bucket@);
    lemma_occurs_within(head, part, tail, p);
    assert(head + part + tail =~= user_data(boot));
    assert(key_part(longer.ssh_authorized_pubkey) == part);
    assert(fixed_env(longer) == fixed_env(boot));
}

proof fn lemma_only_line(s: Seq<char>)
    requires
        !s.contains('\n'),
    ensures
        split_at_each(s, '\n') == seq![s],
    decreases s.len(),
{
    if s.len() > 0 {
        let front = s.drop_last();
        assert(s[s.len() - 1] != '\n');
        assert(!front.contains('\n')) by {
            if front.contains('\n') {
                let j = choose|j: int| 0 <= j < front.len() && front[j] == '\n';
                assert(s[j] == '\n');
            }
        }
        lemma_only_line(front);
        assert(front.push(s.last()) =~= s);
        assert(split_at_each(s, '\n') =~= seq![s]);
    } else {
        assert(s =~= Seq::<char>::empty());
    }
}

proof fn lemma_first_line(s: Seq<char>, rest: Seq<char>)
    requires
        !s.contains('\n'),
    ensures
        split_at_each(s + seq!['\n'] + rest, '\n')[0] == s,
        split_at_each(s + seq!['\n'] + rest, '\n').len() > 1,
    decreases rest.len(),
{
    let t = s + seq!['\n'] + rest;
    if rest.len() == 0 {
        lemma_only_line(s);
        assert(t.drop_last() =~= s);
        assert(t.last() == '\n');
    } else {
        assert(t.drop_last() =~= s + seq!['\n'] + rest.drop_last());
        assert(t.last() == rest.last());
        lemma_first_line(s, rest.drop_last());
    }
}

/// A login goes to the registry that is given, and to GitHub's where none is.
pub proof fn law_login_goes_to_registry(boot: WorkerBootstrap)
    requires
        boot.registry_username is Some,
        boot.registry_password is Some,
    ensures
        boot.registry_server matches Some(s) ==> occurs(
            user_data(boot),
            " | docker login "@ + squoted(s@),
        ),
        boot.registry_server is None ==> occurs(
            user_data(boot),
            " | docker login "@ + squoted("ghcr.io"@),
        ),
{
    let u = boot.registry_username->Some_0;
    let p = boot.registry_password->Some_0;
    let server = match boot.registry_server {
        Some(s) => s@,
        None => "ghcr.io"@,
    };
    let head = head_part(boot.sweep_id@) + key_part(boot.ssh_authorized_pubkey) + docker_part();
    let login = login_part(boot.registry_username, boot.registry_password, boot.registry_server);
    let rest = pull_part(boot.image@) + env_head() + env_lines(fixed_env(boot) + boot.extra_env@)
        + run_part(boot.image@, boot.sweep_id@, boot.r2_bucket@);
    let a = "# Registry login (private image).\nprintf '%s' "@ + squoted(p@);
    let q = " | docker login "@ + squoted(server);
    let b = " -u "@ + squoted(u@) + " --password-stdin\n\n"@;
    assert(login =~= a + q + b);
    lemma_occurs_between(a, q, b);
    lemma_occurs_within(head, login, rest, q);
    assert(head + login + rest =~= user_data(boot));
}

} // verus!
