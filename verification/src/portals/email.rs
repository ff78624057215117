//! The Email portal: the `xdg-email` command line for a request.
use crate::fspath::is_abs;
use crate::text::push_str;
use crate::uri::{file_uri_path, path_from_file_uri};
use vstd::prelude::*;

verus! {

/// The local path of an attachment: a `file:` URI's path, or the text
/// itself when it is an absolute path; `None` otherwise.
pub open spec fn attachment_spec(uri: Seq<char>) -> Option<Seq<char>> {
    match file_uri_path(uri) {
        Some(p) => Some(p),
        None => if is_abs(uri) {
            Some(uri)
        } else {
            None
        },
    }
}

/// The local path of an attachment (frontends send `file://` URIs; some
/// send bare absolute paths).
pub fn attachment_path(uri: &str) -> (out: Option<String>)
    ensures
        crate::paths::opt_view(out) == attachment_spec(uri@),
{
    match path_from_file_uri(uri) {
        Some(p) => Some(p),
        None => if crate::fspath::is_absolute(uri) {
            Some(uri.to_owned())
        } else {
            None
        },
    }
}

pub open spec fn flag_args(flag: Seq<char>, values: Seq<Seq<char>>) -> Seq<Seq<char>>
    decreases values.len(),
{
    if values.len() == 0 {
        Seq::empty()
    } else {
        flag_args(flag, values.drop_last()) + seq![flag, values.last()]
    }
}

/// The `--attach` arguments: one per attachment with a usable path.
pub open spec fn attach_args(uris: Seq<Seq<char>>) -> Seq<Seq<char>>
    decreases uris.len(),
{
    if uris.len() == 0 {
        Seq::empty()
    } else {
        let rest = attach_args(uris.drop_last());
        match attachment_spec(uris.last()) {
            Some(p) => rest + seq!["--attach"@, p],
            None => rest,
        }
    }
}

pub open spec fn opt_arg(flag: Seq<char>, v: Option<Seq<char>>) -> Seq<Seq<char>> {
    match v {
        Some(x) => seq![flag, x],
        None => Seq::empty(),
    }
}

pub open spec fn strs(v: Seq<String>) -> Seq<Seq<char>> {
    v.map_values(|s: String| s@)
}

/// The arguments of `xdg-email` for a request: `--utf8`, the subject and
/// body, each cc and bcc address, each usable attachment, then the
/// recipients (`address` first, then `addresses`).
pub open spec fn email_args_spec(
    subject: Option<Seq<char>>,
    body: Option<Seq<char>>,
    cc: Seq<Seq<char>>,
    bcc: Seq<Seq<char>>,
    attachments: Seq<Seq<char>>,
    addresses: Seq<Seq<char>>,
    address: Option<Seq<char>>,
) -> Seq<Seq<char>> {
    seq!["--utf8"@] + opt_arg("--subject"@, subject) + opt_arg("--body"@, body) + flag_args(
        "--cc"@,
        cc,
    ) + flag_args("--bcc"@, bcc) + attach_args(attachments) + (match address {
        Some(a) => seq![a],
        None => Seq::empty(),
    }) + addresses
}

fn push_flagged(out: &mut Vec<String>, flag: &str, values: &Vec<String>)
    ensures
        strs(final(out)@) == strs(old(out)@) + flag_args(flag@, strs(values@)),
{
    let ghost start = strs(out@);
    let mut i: usize = 0;
    while i < values.len()
        invariant
            i <= values.len(),
            strs(out@) == start + flag_args(flag@, strs(values@).take(i as int)),
        decreases values.len() - i,
    {
        proof {
            assert(strs(values@).take(i + 1).drop_last() =~= strs(values@).take(i as int));
            assert(strs(values@).take(i + 1).last() == values@[i as int]@);
        }
        let ghost before = strs(out@);
        out.push(flag.to_owned());
        out.push(values[i].clone());
        proof {
            assert(strs(out@) =~= before + seq![flag@, values@[i as int]@]);
        }
        i += 1;
    }
    proof {
        assert(strs(values@).take(values.len() as int) =~= strs(values@));
    }
}

/// The `xdg-email` arguments for a request.
pub fn email_args(
    subject: Option<String>,
    body: Option<String>,
    cc: &Vec<String>,
    bcc: &Vec<String>,
    attachments: &Vec<String>,
    addresses: &Vec<String>,
    address: Option<String>,
) -> (out: Vec<String>)
    ensures
        strs(out@) == email_args_spec(
            crate::paths::opt_view(subject),
            crate::paths::opt_view(body),
            strs(cc@),
            strs(bcc@),
            strs(attachments@),
            strs(addresses@),
            crate::paths::opt_view(address),
        ),
{
    let mut out: Vec<String> = Vec::new();
    out.push("--utf8".to_owned());
    proof {
        assert(strs(out@) =~= seq!["--utf8"@]);
    }
    let ghost s0 = strs(out@);
    match subject {
        Some(s) => {
            out.push("--subject".to_owned());
            out.push(s);
        },
        None => {},
    }
    proof {
        assert(strs(out@) =~= s0 + opt_arg("--subject"@, crate::paths::opt_view(subject)));
    }
    let ghost s1 = strs(out@);
    match body {
        Some(b) => {
            out.push("--body".to_owned());
            out.push(b);
        },
        None => {},
    }
    proof {
        assert(strs(out@) =~= s1 + opt_arg("--body"@, crate::paths::opt_view(body)));
    }
    push_flagged(&mut out, "--cc", cc);
    push_flagged(&mut out, "--bcc", bcc);
    let ghost s2 = strs(out@);
    let ghost av = strs(attachments@);
    let mut i: usize = 0;
    while i < attachments.len()
        invariant
            i <= attachments.len(),
            av == strs(attachments@),
            strs(out@) == s2 + attach_args(av.take(i as int)),
        decreases attachments.len() - i,
    {
        proof {
            assert(av.take(i + 1).drop_last() =~= av.take(i as int));
            assert(av.take(i + 1).last() == attachments@[i as int]@);
        }
        let ghost before = strs(out@);
        match attachment_path(attachments[i].as_str()) {
            Some(p) => {
                out.push("--attach".to_owned());
                out.push(p);
                proof {
                    assert(strs(out@) =~= before + seq!["--attach"@, p@]);
                }
            },
            None => {},
        }
        i += 1;
    }
    proof {
        assert(av.take(attachments.len() as int) =~= av);
    }
    let ghost s3 = strs(out@);
    match address {
        Some(a) => out.push(a),
        None => {},
    }
    proof {
        assert(strs(out@) =~= s3 + match address {
            Some(a) => seq![a@],
            None => Seq::<Seq<char>>::empty(),
        });
    }
    let ghost s4 = strs(out@);
    let mut j: usize = 0;
    while j < addresses.len()
        invariant
            j <= addresses.len(),
            strs(out@) == s4 + strs(addresses@).take(j as int),
        decreases addresses.len() - j,
    {
        let ghost before = strs(out@);
        out.push(addresses[j].clone());
        proof {
            assert(strs(out@) =~= before.push(addresses@[j as int]@));
            assert(strs(addresses@).take(j + 1) =~= strs(addresses@).take(j as int).push(
                addresses@[j as int]@,
            ));
        }
        j += 1;
    }
    proof {
        assert(strs(addresses@).take(addresses.len() as int) =~= strs(addresses@));
    }
    out
}

/// The activation token to hand the mail client, when one was given and it
/// is not empty.
pub fn activation_token(token: Option<String>) -> (out: Option<String>)
    ensures
        match token {
            Some(t) => if t@.len() > 0 {
                out == Some(t)
            } else {
                out is None
            },
            None => out is None,
        },
{
    match token {
        Some(t) => if t.as_str().is_empty() {
            None
        } else {
            Some(t)
        },
        None => None,
    }
}


proof fn lemma_flag_args(flag: Seq<char>, values: Seq<Seq<char>>)
    ensures
        flag_args(flag, values).len() == 2 * values.len(),
        forall|i: int|
            0 <= i < values.len() ==> #[trigger] flag_args(flag, values)[2 * i] == flag && flag_args(
                flag,
                values,
            )[2 * i + 1] == values[i],
    decreases values.len(),
{
    if values.len() > 0 {
        lemma_flag_args(flag, values.drop_last());
        let prev = flag_args(flag, values.drop_last());
        let fa = flag_args(flag, values);
        assert(fa == prev + seq![flag, values.last()]);
        assert forall|i: int| 0 <= i < values.len() implies #[trigger] fa[2 * i] == flag && fa[2 * i + 1]
            == values[i] by {
            if i < values.len() - 1 {
                assert(fa[2 * i] == prev[2 * i]);
                assert(fa[2 * i + 1] == prev[2 * i + 1]);
                assert(values.drop_last()[i] == values[i]);
            } else {
                assert(2 * i == prev.len());
            }
        }
    }
}

/// The `xdg-email` command line starts with `--utf8`, then the subject and
/// the body, each after its own flag; then every cc address right after
/// its own `--cc`, and every bcc address right after its own `--bcc`, in
/// order; it ends with the recipients, `address` before `addresses`.
pub proof fn law_email_flags(
    subject: Option<Seq<char>>,
    body: Option<Seq<char>>,
    cc: Seq<Seq<char>>,
    bcc: Seq<Seq<char>>,
    attachments: Seq<Seq<char>>,
    addresses: Seq<Seq<char>>,
    address: Option<Seq<char>>,
)
    ensures
        ({
            let args = email_args_spec(subject, body, cc, bcc, attachments, addresses, address);
            let s = if subject is Some {
                2int
            } else {
                0int
            };
            let o = 1 + s + if body is Some {
                2int
            } else {
                0int
            };
            let b = o + 2 * cc.len();
            let r = if address is Some {
                1int
            } else {
                0int
            };
            &&& args[0] == "--utf8"@
            &&& subject matches Some(x) ==> args[1] == "--subject"@ && args[2] == x
            &&& body matches Some(x) ==> args[1 + s] == "--body"@ && args[2 + s] == x
            &&& forall|i: int| 0 <= i < cc.len() ==> args[o + 2 * i] == "--cc"@ && args[o + 2 * i + 1] == #[trigger] cc[i]
            &&& forall|i: int|
                0 <= i < bcc.len() ==> args[b + 2 * i] == "--bcc"@ && args[b + 2 * i + 1] == #[trigger] bcc[i]
            &&& b + 2 * bcc.len() + r + addresses.len() <= args.len()
            &&& args.subrange(args.len() - addresses.len(), args.len() as int) == addresses
            &&& address matches Some(a) ==> args[args.len() - addresses.len() - 1] == a
        }),
{
    let args = email_args_spec(subject, body, cc, bcc, attachments, addresses, address);
    let head = seq!["--utf8"@] + opt_arg("--subject"@, subject) + opt_arg("--body"@, body);
    let fc = flag_args("--cc"@, cc);
    let fb = flag_args("--bcc"@, bcc);
    let at = attach_args(attachments);
    let rc = match address {
        Some(a) => seq![a],
        None => Seq::<Seq<char>>::empty(),
    };
    assert(args == head + fc + fb + at + rc + addresses);
    lemma_flag_args("--cc"@, cc);
    lemma_flag_args("--bcc"@, bcc);
    let o = head.len() as int;
    assert forall|i: int| 0 <= i < cc.len() implies args[o + 2 * i] == "--cc"@ && args[o + 2 * i + 1]
        == #[trigger] cc[i] by {
        assert(fc[2 * i] == "--cc"@);
        assert((head + fc + fb + at + rc + addresses)[o + 2 * i] == fc[2 * i]);
        assert((head + fc + fb + at + rc + addresses)[o + 2 * i + 1] == fc[2 * i + 1]);
    }
    let b = o + fc.len();
    assert forall|i: int| 0 <= i < bcc.len() implies args[b + 2 * i] == "--bcc"@ && args[b + 2 * i + 1]
        == #[trigger] bcc[i] by {
        assert(fb[2 * i] == "--bcc"@);
        assert((head + fc + fb + at + rc + addresses)[b + 2 * i] == fb[2 * i]);
        assert((head + fc + fb + at + rc + addresses)[b + 2 * i + 1] == fb[2 * i + 1]);
    }
    assert(args.subrange(args.len() - addresses.len(), args.len() as int) =~= addresses);
}

proof fn lemma_attach_args(uris: Seq<Seq<char>>, i: int)
    requires
        0 <= i < uris.len(),
        attachment_spec(uris[i]) is Some,
    ensures
        exists|k: int|
            0 <= k && k + 1 < attach_args(uris).len() && attach_args(uris)[k] == "--attach"@ && #[trigger] attach_args(
                uris,
            )[k + 1] == attachment_spec(uris[i]).unwrap(),
    decreases uris.len(),
{
    let pre = uris.drop_last();
    let rest = attach_args(pre);
    let aa = attach_args(uris);
    if i < uris.len() - 1 {
        assert(pre[i] == uris[i]);
        lemma_attach_args(pre, i);
        let k = choose|k: int|
            0 <= k && k + 1 < rest.len() && rest[k] == "--attach"@ && #[trigger] rest[k + 1] == attachment_spec(
                pre[i],
            ).unwrap();
        match attachment_spec(uris.last()) {
            Some(p) => {
                assert(aa == rest + seq!["--attach"@, p]);
                assert(aa[k] == rest[k]);
                assert(aa[k + 1] == rest[k + 1]);
            },
            None => {},
        }
    } else {
        let p = attachment_spec(uris.last()).unwrap();
        assert(aa == rest + seq!["--attach"@, p]);
        assert(aa[rest.len() as int] == "--attach"@);
        assert(aa[rest.len() + 1int] == p);
    }
}

/// Every attachment with a usable local path is passed to `xdg-email` as
/// that path right after an `--attach` flag.
pub proof fn law_email_attachments(
    subject: Option<Seq<char>>,
    body: Option<Seq<char>>,
    cc: Seq<Seq<char>>,
    bcc: Seq<Seq<char>>,
    attachments: Seq<Seq<char>>,
    addresses: Seq<Seq<char>>,
    address: Option<Seq<char>>,
    i: int,
)
    requires
        0 <= i < attachments.len(),
        attachment_spec(attachments[i]) is Some,
    ensures
        ({
            let args = email_args_spec(subject, body, cc, bcc, attachments, addresses, address);
            exists|k: int|
                0 <= k && k + 1 < args.len() && args[k] == "--attach"@ && #[trigger] args[k + 1] == attachment_spec(
                    attachments[i],
                ).unwrap()
        }),
{
    let args = email_args_spec(subject, body, cc, bcc, attachments, addresses, address);
    let front = seq!["--utf8"@] + opt_arg("--subject"@, subject) + opt_arg("--body"@, body) + flag_args(
        "--cc"@,
        cc,
    ) + flag_args("--bcc"@, bcc);
    let at = attach_args(attachments);
    let tail = (match address {
        Some(a) => seq![a],
        None => Seq::<Seq<char>>::empty(),
    }) + addresses;
    assert(args =~= front + at + tail);
    lemma_attach_args(attachments, i);
    let k = choose|k: int|
        0 <= k && k + 1 < at.len() && at[k] == "--attach"@ && #[trigger] at[k + 1] == attachment_spec(
            attachments[i],
        ).unwrap();
    assert(args[front.len() + k] == at[k]);
    assert(args[front.len() + k + 1] == at[k + 1]);
}

} // verus!
