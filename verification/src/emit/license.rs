//! License banner written at the top of every emitted file.

use vstd::prelude::*;

use crate::config::CodegenConfig;

verus! {

/// The banner: the SPDX line, then a line naming the source the file was
/// emitted from when one is given.
pub open spec fn spec_header_block(license: Seq<char>, source: Option<Seq<char>>) -> Seq<char> {
    "/* SPDX-License-Identifier: "@ + license + " */\n"@ + match source {
        Some(s) => "/* Emitted from "@ + s + ". Edits are overwritten on the next run. */\n"@,
        None => Seq::empty(),
    }
}

/// The license banner for a file emitted under `config`.
pub fn header_block(config: &CodegenConfig, source: Option<&str>) -> (r: String)
    ensures
        r@ == spec_header_block(
            config.license_spdx@,
            match source {
                Some(s) => Some(s@),
                None => None,
            },
        ),
{
    let mut s = "/* SPDX-License-Identifier: ".to_owned();
    s.append(config.license_spdx.as_str());
    s.append(" */\n");
    if let Some(src) = source {
        s.append("/* Emitted from ");
        s.append(src);
        s.append(". Edits are overwritten on the next run. */\n");
    }
    s
}

} // verus!
