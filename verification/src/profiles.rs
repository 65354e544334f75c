//! Bundled starting profiles.
//!
//! A profile is a named config fragment shipped with bailey. The untrusted
//! profile is the deny-by-default floor applied to every run; the others layer
//! additively on top of it. Users extend a profile with their own
//! per-directory config.

use vstd::prelude::*;

use crate::text::{chars_of, owned, push_str, string_of};

verus! {

/// The minimal deny-by-default base applied to every run: enough to load
/// and run a dynamically linked program, and nothing else.
pub const UNTRUSTED: &'static str = "# The floor every run starts from: the system's programs and libraries,
# read and run, and the harmless character devices. Nothing of the user's.
[filesystem]
read = [
    \"/usr\",
    \"/lib\",
    \"/lib64\",
    \"/bin\",
    \"/sbin\",
    \"/etc/ld.so.cache\",
    \"/etc/ld.so.conf\",
    \"/etc/ld.so.conf.d\",
    \"/etc/localtime\",
    \"/etc/nsswitch.conf\",
    \"/etc/passwd\",
    \"/etc/group\",
    \"/proc/self\",
    \"/sys/devices/system/cpu\",
]
execute = [\"/usr\", \"/lib\", \"/lib64\", \"/bin\", \"/sbin\"]

[[device]]
path = \"/dev/null\"
access = \"rw\"

[[device]]
path = \"/dev/zero\"
access = \"r\"

[[device]]
path = \"/dev/full\"
access = \"rw\"

[[device]]
path = \"/dev/urandom\"
access = \"r\"

[[device]]
path = \"/dev/random\"
access = \"r\"

[[device]]
path = \"/dev/tty\"
access = \"rw\"
";

/// Additive profile for native Linux games: GPU including NVIDIA, audio,
/// controllers, display, fonts.
pub const NATIVE_GAME: &'static str = "# A native game: the GPU, sound, controllers, the display and fonts.
[filesystem]
read = [
    \"/usr/share/fonts\",
    \"/usr/share/vulkan\",
    \"/usr/share/glvnd\",
    \"/usr/share/alsa\",
    \"/etc/fonts\",
    \"/etc/alsa\",
    \"/etc/pulse\",
    \"/sys/class/input\",
    \"/sys/bus/pci\",
    \"/sys/devices\",
    \"/run/udev/data\",
]
write = [
    \"${XDG_RUNTIME_DIR}/pulse\",
    \"${XDG_RUNTIME_DIR}/pipewire-0\",
    \"${XDG_RUNTIME_DIR}/wayland-0\",
    \"/tmp/.X11-unix\",
]

[[device]]
path = \"/dev/dri\"
access = \"rw\"

[[device]]
path = \"/dev/nvidiactl\"
access = \"rw\"

[[device]]
path = \"/dev/nvidia0\"
access = \"rw\"

[[device]]
path = \"/dev/nvidia-modeset\"
access = \"rw\"

[[device]]
path = \"/dev/nvidia-uvm\"
access = \"rw\"

[[device]]
path = \"/dev/snd\"
access = \"rw\"

[[device]]
path = \"/dev/input\"
access = \"rw\"

[env]
pass = [\"DISPLAY\", \"WAYLAND_DISPLAY\", \"XDG_RUNTIME_DIR\", \"PULSE_SERVER\", \"SDL_*\"]
";

/// Additive profile for a desktop application: display, audio, fonts and
/// icons, no controllers.
pub const DESKTOP_APP: &'static str = "# A desktop application: the display, sound, fonts and icons.
[filesystem]
read = [
    \"/usr/share/fonts\",
    \"/usr/share/icons\",
    \"/usr/share/themes\",
    \"/usr/share/mime\",
    \"/etc/fonts\",
    \"/etc/pulse\",
]
write = [
    \"${XDG_RUNTIME_DIR}/pulse\",
    \"${XDG_RUNTIME_DIR}/pipewire-0\",
    \"${XDG_RUNTIME_DIR}/wayland-0\",
    \"/tmp/.X11-unix\",
]

[[device]]
path = \"/dev/dri\"
access = \"rw\"

[[device]]
path = \"/dev/snd\"
access = \"rw\"

[env]
pass = [\"DISPLAY\", \"WAYLAND_DISPLAY\", \"XDG_RUNTIME_DIR\", \"PULSE_SERVER\"]
";

/// Additive profile for a tool confined to one project directory.
pub const AI_AGENT: &'static str = "# A tool confined to the directory it was started in: no home, no
# network, no devices beyond the floor's.
[filesystem]
read = [\"${PWD}\"]
write = [\"${PWD}\"]
execute = [\"${PWD}\"]
";

/// Additive profile for a tool that only fetches over the network.
pub const NETWORK_CLIENT: &'static str = "# A tool that only fetches: outbound TCP on 443, and what it needs to
# find hosts and check their certificates.
[filesystem]
read = [
    \"/etc/ssl\",
    \"/etc/ca-certificates\",
    \"/etc/pki\",
    \"/etc/resolv.conf\",
    \"/etc/hosts\",
]

[network]
egress_allow = [{ host = \"*\", port = 443 }]
";

/// The name of the default base profile.
pub const DEFAULT: &'static str = "untrusted";

/// A bundled profile with its name and description.
pub struct Profile {
    /// The name used to select the profile.
    pub name: &'static str,
    /// A one-line description.
    pub description: &'static str,
    /// The profile's TOML source.
    pub toml: &'static str,
}

/// The bundled profiles, as name, description and text.
pub open spec fn table() -> Seq<(Seq<char>, Seq<char>, Seq<char>)> {
    seq![
        ("untrusted"@, "Minimal deny-by-default base: run a binary, nothing else"@, UNTRUSTED@),
        ("native-game"@, "Native Linux game: GPU including NVIDIA, audio, controllers, display, fonts"@, NATIVE_GAME@),
        ("desktop-app"@, "Desktop application: display, audio, fonts and icons, no controllers"@, DESKTOP_APP@),
        ("ai-agent"@, "A tool confined to its working directory: no home, no network, no devices"@, AI_AGENT@),
        ("network-client"@, "A tool that only fetches: outbound TCP on 443 and the certificates for it"@, NETWORK_CLIENT@),
    ]
}

pub open spec fn profile_view(p: Profile) -> (Seq<char>, Seq<char>, Seq<char>) {
    (p.name@, p.description@, p.toml@)
}

/// All bundled profiles.
pub fn all() -> (r: Vec<Profile>)
    ensures
        r@.map_values(|p: Profile| profile_view(p)) == table(),
{
    let r = vec![
        Profile {
            name: "untrusted",
            description: "Minimal deny-by-default base: run a binary, nothing else",
            toml: UNTRUSTED,
        },
        Profile {
            name: "native-game",
            description: "Native Linux game: GPU including NVIDIA, audio, controllers, display, fonts",
            toml: NATIVE_GAME,
        },
        Profile {
            name: "desktop-app",
            description: "Desktop application: display, audio, fonts and icons, no controllers",
            toml: DESKTOP_APP,
        },
        Profile {
            name: "ai-agent",
            description: "A tool confined to its working directory: no home, no network, no devices",
            toml: AI_AGENT,
        },
        Profile {
            name: "network-client",
            description: "A tool that only fetches: outbound TCP on 443 and the certificates for it",
            toml: NETWORK_CLIENT,
        },
    ];
    assert(r@.map_values(|p: Profile| profile_view(p)) =~= table());
    r
}

/// Whether entry `i` is the first bundled profile called `name`.
pub open spec fn first_named(name: Seq<char>, i: int) -> bool {
    0 <= i < table().len() && table()[i].0 == name && forall|j: int| 0 <= j < i ==> table()[j].0 != name
}

/// Looks up a bundled profile by name.
pub fn get(name: &str) -> (r: Option<Profile>)
    ensures
        match r {
            Some(p) => exists|i: int| first_named(name@, i) && table()[i] == profile_view(p),
            None => forall|i: int| 0 <= i < table().len() ==> table()[i].0 != name@,
        },
{
    let profiles = all();
    let wanted = owned(name);
    let mut i: usize = 0;
    while i < profiles.len()
        invariant
            i <= profiles@.len(),
            wanted@ == name@,
            profiles@.map_values(|p: Profile| profile_view(p)) == table(),
            forall|j: int| 0 <= j < i ==> table()[j].0 != name@,
        decreases profiles@.len() - i,
    {
        assert(table()[i as int] == profile_view(profiles@[i as int]));
        if owned(profiles[i].name) == wanted {
            let p = Profile { name: profiles[i].name, description: profiles[i].description, toml: profiles[i].toml };
            assert(first_named(name@, i as int));
            return Some(p);
        }
        i = i + 1;
    }
    None
}

pub open spec fn label_spec(name: Seq<char>) -> Seq<char> {
    if name == "untrusted"@ {
        "profile:untrusted"@
    } else if name == "native-game"@ {
        "profile:native-game"@
    } else if name == "desktop-app"@ {
        "profile:desktop-app"@
    } else if name == "ai-agent"@ {
        "profile:ai-agent"@
    } else if name == "network-client"@ {
        "profile:network-client"@
    } else {
        "profile:custom"@
    }
}

/// The label a base layer carries in error messages.
fn label_of(name: &str) -> (r: &'static str)
    ensures
        r@ == label_spec(name@),
{
    let n = owned(name);
    if n == owned("untrusted") {
        "profile:untrusted"
    } else if n == owned("native-game") {
        "profile:native-game"
    } else if n == owned("desktop-app") {
        "profile:desktop-app"
    } else if n == owned("ai-agent") {
        "profile:ai-agent"
    } else if n == owned("network-client") {
        "profile:network-client"
    } else {
        "profile:custom"
    }
}

/// The base layers for `profile`, lowest precedence first, each a label and
/// a text: the untrusted floor always, and the named profile on top of it
/// unless it is the floor itself.
pub open spec fn base_layers_spec(profile: Seq<char>) -> Result<Seq<(Seq<char>, Seq<char>)>, Seq<char>> {
    let floor = seq![("profile:untrusted"@, UNTRUSTED@)];
    if profile == DEFAULT@ {
        Ok(floor)
    } else if exists|i: int| first_named(profile, i) {
        let i = choose|i: int| first_named(profile, i);
        Ok(floor.push((label_spec(profile), table()[i].2)))
    } else {
        Err("unknown profile `"@ + profile + "`"@)
    }
}

/// Builds the base layers for `profile`, lowest precedence first.
pub fn base_layers(profile: &str) -> (r: Result<Vec<(String, String)>, String>)
    ensures
        match r {
            Ok(v) => base_layers_spec(profile@) == Ok::<Seq<(Seq<char>, Seq<char>)>, Seq<char>>(
                v@.map_values(|l: (String, String)| (l.0@, l.1@)),
            ),
            Err(e) => base_layers_spec(profile@) == Err::<Seq<(Seq<char>, Seq<char>)>, Seq<char>>(e@),
        },
{
    let mut layers: Vec<(String, String)> = Vec::new();
    layers.push((owned("profile:untrusted"), owned(UNTRUSTED)));
    if owned(profile) == owned(DEFAULT) {
        assert(layers@.map_values(|l: (String, String)| (l.0@, l.1@)) =~= seq![("profile:untrusted"@, UNTRUSTED@)]);
        return Ok(layers);
    }
    match get(profile) {
        Some(found) => {
            let ghost i = choose|i: int| first_named(profile@, i) && table()[i] == profile_view(found);
            proof {
                let c = choose|c: int| first_named(profile@, c);
                if c < i {
                    assert(table()[c].0 != profile@);
                } else if c > i {
                    assert(table()[i].0 != profile@);
                }
            }
            layers.push((owned(label_of(profile)), owned(found.toml)));
            assert(layers@.map_values(|l: (String, String)| (l.0@, l.1@)) =~= seq![("profile:untrusted"@, UNTRUSTED@)].push(
                (label_spec(profile@), table()[i].2),
            ));
            Ok(layers)
        },
        None => {
            let mut out = chars_of("unknown profile `");
            push_str(&mut out, profile);
            push_str(&mut out, "`");
            let e = string_of(&out);
            assert(e@ =~= "unknown profile `"@ + profile@ + "`"@);
            Err(e)
        },
    }
}

} // verus!
