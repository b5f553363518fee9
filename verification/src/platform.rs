//! What differs between operating systems: where the settings file lies and where fonts are found.

use vstd::prelude::*;

verus! {

/// The kinds of operating system that are told apart.
#[derive(Debug, Clone, Copy, PartialEq, Eq)]
pub enum Platform {
    Windows,
    MacOs,
    Other,
}

/// The environment variables that may name the directory above the settings.
#[derive(Debug, Clone, Copy, PartialEq, Eq, Structural)]
pub enum BaseVariable {
    AppData,
    Home,
    XdgConfigHome,
}

/// A path: the directory that a variable names, and the components below it.
#[derive(Debug, PartialEq, Eq)]
pub struct ConfigPath {
    pub base: BaseVariable,
    pub components: Vec<&'static str>,
}

/// The contents of a list of words.
pub open spec fn words_of(list: Seq<&'static str>) -> Seq<Seq<char>> {
    list.map_values(|word: &'static str| word@)
}

/// Where the settings file lies, given which variables are set: on Windows below `APPDATA`, on macOS
/// below `HOME`, elsewhere below `XDG_CONFIG_HOME` or, failing that, below `HOME`.
pub open spec fn config_location(
    platform: Platform,
    has_app_data: bool,
    has_home: bool,
    has_xdg_config_home: bool,
) -> Option<(BaseVariable, Seq<Seq<char>>)> {
    let file = seq!["serial_tool"@, "config.toml"@];
    match platform {
        Platform::Windows => if has_app_data {
            Some((BaseVariable::AppData, file))
        } else {
            None
        },
        Platform::MacOs => if has_home {
            Some((BaseVariable::Home, seq!["Library"@, "Application Support"@] + file))
        } else {
            None
        },
        Platform::Other => if has_xdg_config_home {
            Some((BaseVariable::XdgConfigHome, file))
        } else if has_home {
            Some((BaseVariable::Home, seq![".config"@] + file))
        } else {
            None
        },
    }
}

/// Where the settings file lies, given which variables are set.
pub fn config_file_path(
    platform: Platform,
    has_app_data: bool,
    has_home: bool,
    has_xdg_config_home: bool,
) -> (result: Option<ConfigPath>)
    ensures
        match result {
            Some(path) => config_location(platform, has_app_data, has_home, has_xdg_config_home)
                == Some((path.base, words_of(path.components@))),
            None => config_location(
                platform,
                has_app_data,
                has_home,
                has_xdg_config_home,
            ) is None,
        },
{
    let mut components: Vec<&'static str> = Vec::new();
    let base = match platform {
        Platform::Windows => if has_app_data {
            BaseVariable::AppData
        } else {
            return None;
        },
        Platform::MacOs => if has_home {
            components.push("Library");
            components.push("Application Support");
            BaseVariable::Home
        } else {
            return None;
        },
        Platform::Other => if has_xdg_config_home {
            BaseVariable::XdgConfigHome
        } else if has_home {
            components.push(".config");
            BaseVariable::Home
        } else {
            return None;
        },
    };
    components.push("serial_tool");
    components.push("config.toml");
    proof {
        let expected = config_location(platform, has_app_data, has_home, has_xdg_config_home);
        assert(words_of(components@) == (expected->0).1);
    }
    Some(ConfigPath { base, components })
}

/// The files that may hold a font with Chinese characters, the first that can be read wins.
pub open spec fn font_files(platform: Platform) -> Seq<Seq<char>> {
    match platform {
        Platform::Windows => seq![
            "C:/Windows/Fonts/msyh.ttc"@,
            "C:/Windows/Fonts/simsun.ttc"@,
            "C:/Windows/Fonts/simhei.ttf"@,
        ],
        Platform::MacOs => seq![
            "/System/Library/Fonts/PingFang.ttc"@,
            "/System/Library/Fonts/STHeiti Light.ttc"@,
        ],
        Platform::Other => seq![
            "/usr/share/fonts/truetype/wqy/wqy-microhei.ttc"@,
            "/usr/share/fonts/wqy-microhei/wqy-microhei.ttc"@,
            "/usr/share/fonts/truetype/noto/NotoSansCJK-Regular.ttc"@,
            "/usr/share/fonts/noto-cjk/NotoSansCJK-Regular.ttc"@,
            "/usr/share/fonts/google-noto-cjk/NotoSansCJK-Regular.ttc"@,
            "/usr/share/fonts/opentype/noto/NotoSansCJK-Regular.ttc"@,
            "/usr/share/fonts/noto/NotoSansCJK-Regular.ttc"@,
        ],
    }
}

/// The files to look for a font in, in order.
pub fn font_paths(platform: Platform) -> (result: Vec<&'static str>)
    ensures
        words_of(result@) == font_files(platform),
{
    let mut paths: Vec<&'static str> = Vec::new();
    match platform {
        Platform::Windows => {
            paths.push("C:/Windows/Fonts/msyh.ttc");
            paths.push("C:/Windows/Fonts/simsun.ttc");
            paths.push("C:/Windows/Fonts/simhei.ttf");
        },
        Platform::MacOs => {
            paths.push("/System/Library/Fonts/PingFang.ttc");
            paths.push("/System/Library/Fonts/STHeiti Light.ttc");
        },
        Platform::Other => {
            paths.push("/usr/share/fonts/truetype/wqy/wqy-microhei.ttc");
            paths.push("/usr/share/fonts/wqy-microhei/wqy-microhei.ttc");
            paths.push("/usr/share/fonts/truetype/noto/NotoSansCJK-Regular.ttc");
            paths.push("/usr/share/fonts/noto-cjk/NotoSansCJK-Regular.ttc");
            paths.push("/usr/share/fonts/google-noto-cjk/NotoSansCJK-Regular.ttc");
            paths.push("/usr/share/fonts/opentype/noto/NotoSansCJK-Regular.ttc");
            paths.push("/usr/share/fonts/noto/NotoSansCJK-Regular.ttc");
        },
    }
    assert(words_of(paths@) == font_files(platform));
    paths
}

} // verus!
