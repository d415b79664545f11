//! Compatibility between the version a configuration declares and the CLI's own.
use vstd::prelude::*;
use crate::error::{ErrorView, HooxError};
use crate::text::{split_on, split_str, str_eq, views};

verus! {

/// The outcome of comparing a configuration version with the CLI version: a
/// `0.0.0` CLI accepts any configuration version; otherwise both must have at
/// least two dot-separated parts, and below `1.0.0` the minor parts must agree,
/// from `1.0.0` on the major ones.
pub open spec fn version_check(config: Seq<char>, cli: Seq<char>) -> Result<(), ErrorView> {
    let file_v = split_on(config, '.');
    let cli_v = split_on(cli, '.');
    if cli_v == seq!["0"@, "0"@, "0"@] {
        Ok(())
    } else if file_v.len() < 2 || cli_v.len() < 2 {
        Err(ErrorView::InvalidVersionFormat)
    } else if file_v[0] == "0"@ && cli_v[0] == "0"@ {
        if file_v[1] != cli_v[1] {
            Err(ErrorView::IncompatibleMinorVersion { config, cli })
        } else {
            Ok(())
        }
    } else if file_v[0] != cli_v[0] {
        Err(ErrorView::IncompatibleMajorVersion { config, cli })
    } else {
        Ok(())
    }
}

/// Checks that a configuration written for version `config` may be run by a
/// CLI of version `cli`.
pub fn check_version(config: &str, cli: &str) -> (res: Result<(), HooxError>)
    ensures
        match res {
            Ok(()) => version_check(config@, cli@) == Ok::<(), ErrorView>(()),
            Err(e) => version_check(config@, cli@) == Err::<(), ErrorView>(e@),
        },
{
    let file_v = split_str(config, '.');
    let cli_v = split_str(cli, '.');
    proof {
        reveal_strlit("0");
    }
    let dev = cli_v.len() == 3 && str_eq(cli_v[0].as_str(), "0") && str_eq(cli_v[1].as_str(), "0")
        && str_eq(cli_v[2].as_str(), "0");
    proof {
        let cv = split_on(cli@, '.');
        assert(cv == views(cli_v@));
        assert(cv.len() == cli_v@.len());
        if cv == seq!["0"@, "0"@, "0"@] {
            assert(cv[0] == "0"@ && cv[1] == "0"@ && cv[2] == "0"@);
            assert(cli_v@[0]@ == cv[0] && cli_v@[1]@ == cv[1] && cli_v@[2]@ == cv[2]);
            assert(dev);
        }
        if dev {
            assert(cv =~= seq!["0"@, "0"@, "0"@]);
        }
    }
    if dev {
        return Ok(());
    }
    if file_v.len() < 2 || cli_v.len() < 2 {
        return Err(HooxError::InvalidVersionFormat);
    }
    if str_eq(file_v[0].as_str(), "0") && str_eq(cli_v[0].as_str(), "0") {
        if !str_eq(file_v[1].as_str(), cli_v[1].as_str()) {
            return Err(HooxError::IncompatibleMinorVersion { config: config.to_owned(), cli: cli.to_owned() });
        }
    } else if !str_eq(file_v[0].as_str(), cli_v[0].as_str()) {
        return Err(HooxError::IncompatibleMajorVersion { config: config.to_owned(), cli: cli.to_owned() });
    }
    Ok(())
}

/// A development CLI (version `0.0.0`) accepts every configuration version.
pub proof fn law_dev_cli_accepts_any(config: Seq<char>)
    ensures
        version_check(config, "0.0.0"@) == Ok::<(), ErrorView>(()),
{
    reveal_strlit("0.0.0");
    reveal_strlit("0");
    let s = "0.0.0"@;
    let e = Seq::<char>::empty();
    let z = seq!['0'];
    assert(s =~= seq!['0', '.', '0', '.', '0']);
    assert(seq!['0'].drop_last() =~= e);
    assert(split_on(e, '.') =~= seq![e]);
    assert(e.push('0') =~= z);
    assert(split_on(z, '.') =~= seq![z]);
    assert(z.push('0') =~= seq!['0', '0']);
    assert(seq!['0', '.'].drop_last() =~= z);
    assert(split_on(seq!['0', '.'], '.') =~= seq![z, e]);
    assert(seq!['0', '.', '0'].drop_last() =~= seq!['0', '.']);
    assert(split_on(seq!['0', '.', '0'], '.') =~= seq![z, z]);
    assert(seq!['0', '.', '0', '.'].drop_last() =~= seq!['0', '.', '0']);
    assert(split_on(seq!['0', '.', '0', '.'], '.') =~= seq![z, z, e]);
    assert(s.drop_last() =~= seq!['0', '.', '0', '.']);
    assert(split_on(s, '.') =~= seq![z, z, z]);
    assert("0"@ =~= z);
}

/// A configuration written for exactly the CLI's version is always accepted,
/// provided the version has at least two dot-separated parts.
pub proof fn law_same_version_accepted(v: Seq<char>)
    requires
        split_on(v, '.').len() >= 2,
    ensures
        version_check(v, v) == Ok::<(), ErrorView>(()),
{
}

/// A CLI other than `0.0.0` rejects a version with fewer than two
/// dot-separated parts, its own or the configuration's.
pub proof fn law_short_version_rejected(config: Seq<char>, cli: Seq<char>)
    requires
        split_on(cli, '.') != seq!["0"@, "0"@, "0"@],
        split_on(config, '.').len() < 2 || split_on(cli, '.').len() < 2,
    ensures
        version_check(config, cli) == Err::<(), ErrorView>(ErrorView::InvalidVersionFormat),
{
}

/// A CLI other than `0.0.0` rejects a configuration whose major version (its
/// first dot-separated part) differs from its own, below `1.0.0` too.
pub proof fn law_major_mismatch_rejected(config: Seq<char>, cli: Seq<char>)
    requires
        split_on(cli, '.') != seq!["0"@, "0"@, "0"@],
        split_on(config, '.').len() >= 2,
        split_on(cli, '.').len() >= 2,
        split_on(config, '.')[0] != split_on(cli, '.')[0],
    ensures
        version_check(config, cli) == Err::<(), ErrorView>(ErrorView::IncompatibleMajorVersion { config, cli }),
{
}

/// Below `1.0.0` (major `0` on both sides, CLI not `0.0.0`), the minor
/// versions must agree: the configuration is accepted exactly when they do,
/// and otherwise rejected as an incompatible minor version.
pub proof fn law_minor_rule_below_one(config: Seq<char>, cli: Seq<char>)
    requires
        split_on(cli, '.') != seq!["0"@, "0"@, "0"@],
        split_on(config, '.').len() >= 2,
        split_on(cli, '.').len() >= 2,
        split_on(config, '.')[0] == "0"@,
        split_on(cli, '.')[0] == "0"@,
    ensures
        split_on(config, '.')[1] == split_on(cli, '.')[1] ==> version_check(config, cli) == Ok::<(), ErrorView>(()),
        split_on(config, '.')[1] != split_on(cli, '.')[1] ==> version_check(config, cli) == Err::<(), ErrorView>(
            ErrorView::IncompatibleMinorVersion { config, cli },
        ),
{
}

/// From `1.0.0` on (a CLI major other than `0`), a configuration with the
/// same major version is accepted, whatever its minor and patch parts.
pub proof fn law_same_major_accepted(config: Seq<char>, cli: Seq<char>)
    requires
        split_on(config, '.').len() >= 2,
        split_on(cli, '.').len() >= 2,
        split_on(cli, '.')[0] != "0"@,
        split_on(config, '.')[0] == split_on(cli, '.')[0],
    ensures
        version_check(config, cli) == Ok::<(), ErrorView>(()),
{
}

} // verus!
