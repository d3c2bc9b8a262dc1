//! Preparing the USB gadget at startup: the checks on its configuration, the
//! configfs paths it uses, and the decisions on its function links and UDC
//! binding. The caller does the configfs work these decisions call for.
use vstd::prelude::*;
use crate::error::IoError;
use crate::gadget::{first_udc_name, udc_bound, udc_is_bound, GadgetRuntime, MassStorageLun};
use crate::exfat::transaction_resolver::seq_lt;
use crate::strings::{chars_of, contains_infix, decimal, decimal_string, has_infix, join_path, push_component};
use vstd::string::StringExecFns;

verus! {

/// What the gadget is prepared with.
#[derive(Debug, Clone)]
pub struct GadgetBootstrapConfig {
    pub configfs_root: String,
    pub udc_root: String,
    pub gadget_name: String,
    pub config_name: String,
    pub udc: Option<String>,
    pub keep_adb: bool,
    pub storage_function: String,
    pub storage_lun: u8,
    pub keyboard_function: String,
    pub mouse_function: String,
}

/// Why preparing the gadget failed.
#[derive(Debug)]
pub enum GadgetBootstrapError {
    Io(IoError),
    Hid(String),
    UdcNotFound(String),
    InvalidFunctionName(String),
    DuplicateHidFunction(String),
}

/// Prepares the gadget.
pub struct GadgetBootstrap;

/// A function name that may be used: not empty, no `/`, no `..`.
pub open spec fn valid_function_name(n: Seq<char>) -> bool {
    n.len() > 0 && !n.contains('/') && !has_infix(n, seq!['.', '.'])
}

/// The configuration error of `c`, if any: the first invalid function name
/// (storage, keyboard, mouse), else the keyboard and mouse functions being the
/// same.
pub open spec fn config_error(c: GadgetBootstrapConfig) -> Option<(bool, Seq<char>)> {
    if !valid_function_name(c.storage_function@) {
        Some((true, c.storage_function@))
    } else if !valid_function_name(c.keyboard_function@) {
        Some((true, c.keyboard_function@))
    } else if !valid_function_name(c.mouse_function@) {
        Some((true, c.mouse_function@))
    } else if c.keyboard_function@ == c.mouse_function@ {
        Some((false, c.keyboard_function@))
    } else {
        None
    }
}

/// The error view of a configuration check: an invalid name (`true`) or a
/// duplicate HID function (`false`), with the name.
pub open spec fn check_error_view(e: GadgetBootstrapError) -> Option<(bool, Seq<char>)> {
    match e {
        GadgetBootstrapError::InvalidFunctionName(n) => Some((true, n@)),
        GadgetBootstrapError::DuplicateHidFunction(n) => Some((false, n@)),
        _ => None,
    }
}

/// Checks a function name.
pub fn validate_function_name(name: &str) -> (r: Result<(), GadgetBootstrapError>)
    ensures
        valid_function_name(name@) <==> r is Ok,
        r matches Err(e) ==> check_error_view(e) == Some((true, name@)),
{
    let nc = chars_of(name);
    let mut slash = false;
    let mut i: usize = 0;
    while i < nc.len()
        invariant
            i <= nc@.len(),
            nc@ == name@,
            slash == exists|k: int| 0 <= k < i && nc@[k] == '/',
        decreases nc@.len() - i,
    {
        if nc[i] == '/' {
            slash = true;
        }
        i = i + 1;
    }
    proof {
        if name@.contains('/') {
            let k = choose|k: int| 0 <= k < name@.len() && name@[k] == '/';
            assert(nc@[k] == '/');
        }
    }
    let dots: Vec<char> = vec!['.', '.'];
    assert(dots@ =~= seq!['.', '.']);
    if nc.len() == 0 || slash || contains_infix(nc.as_slice(), dots.as_slice()) {
        return Err(GadgetBootstrapError::InvalidFunctionName(String::from_str(name)));
    }
    Ok(())
}

/// The configfs paths the gadget uses.
#[derive(Debug, Clone)]
pub struct BootstrapPaths {
    pub gadget_dir: String,
    pub functions_dir: String,
    pub config_dir: String,
    pub config_strings_dir: String,
    pub gadget_strings_dir: String,
    pub storage_dir: String,
    pub lun_dir: String,
    pub storage_link: String,
    pub keyboard_dir: String,
    pub keyboard_link: String,
    pub mouse_dir: String,
    pub mouse_link: String,
    pub udc_file: String,
}

/// The name of LUN `n`'s directory.
pub open spec fn lun_name(n: u8) -> Seq<char> {
    seq!['l', 'u', 'n', '.'] + decimal(n as nat)
}

/// The paths for configuration `c`: the gadget below the configfs root, its
/// `functions` and `configs/<config>` directories, the storage function's
/// LUN directory, each function's link in the configuration, and the `UDC`
/// file.
pub open spec fn paths_ok(c: GadgetBootstrapConfig, p: BootstrapPaths) -> bool {
    let g = push_component(c.configfs_root@, c.gadget_name@);
    let f = push_component(g, "functions"@);
    let cfg = push_component(push_component(g, "configs"@), c.config_name@);
    let s = push_component(f, c.storage_function@);
    &&& p.gadget_dir@ == g
    &&& p.functions_dir@ == f
    &&& p.config_dir@ == cfg
    &&& p.config_strings_dir@ == push_component(cfg, "strings/0x409"@)
    &&& p.gadget_strings_dir@ == push_component(g, "strings/0x409"@)
    &&& p.storage_dir@ == s
    &&& p.lun_dir@ == push_component(s, lun_name(c.storage_lun))
    &&& p.storage_link@ == push_component(cfg, c.storage_function@)
    &&& p.keyboard_dir@ == push_component(f, c.keyboard_function@)
    &&& p.keyboard_link@ == push_component(cfg, c.keyboard_function@)
    &&& p.mouse_dir@ == push_component(f, c.mouse_function@)
    &&& p.mouse_link@ == push_component(cfg, c.mouse_function@)
    &&& p.udc_file@ == push_component(g, "UDC"@)
}

/// The name of a configuration entry that is an adb function link.
pub open spec fn adb_link_name(name: Seq<char>) -> bool {
    has_infix(name, seq!['a', 'd', 'b'])
}

/// Whether a configuration entry named `name` is an adb function link.
pub fn is_adb_link_name(name: &str) -> (r: bool)
    ensures
        r == adb_link_name(name@),
{
    let nc = chars_of(name);
    let adb: Vec<char> = vec!['a', 'd', 'b'];
    assert(adb@ =~= seq!['a', 'd', 'b']);
    contains_infix(nc.as_slice(), adb.as_slice())
}

impl GadgetBootstrap {
    /// Checks the configuration: each function name must be valid (storage,
    /// keyboard, mouse, in that order) and the keyboard and mouse functions
    /// must differ.
    pub fn check_config(config: &GadgetBootstrapConfig) -> (r: Result<(), GadgetBootstrapError>)
        ensures
            config_error(*config) is None <==> r is Ok,
            r matches Err(e) ==> check_error_view(e) == config_error(*config),
    {
        validate_function_name(config.storage_function.as_str())?;
        validate_function_name(config.keyboard_function.as_str())?;
        validate_function_name(config.mouse_function.as_str())?;
        if crate::strings::str_eq(config.keyboard_function.as_str(), config.mouse_function.as_str()) {
            return Err(GadgetBootstrapError::DuplicateHidFunction(config.keyboard_function.clone()));
        }
        Ok(())
    }

    /// The configfs paths of the configuration.
    pub fn paths(config: &GadgetBootstrapConfig) -> (p: BootstrapPaths)
        ensures
            paths_ok(*config, p),
    {
        let g = join_path(config.configfs_root.as_str(), config.gadget_name.as_str());
        let f = join_path(g.as_str(), "functions");
        let configs = join_path(g.as_str(), "configs");
        let cfg = join_path(configs.as_str(), config.config_name.as_str());
        let s = join_path(f.as_str(), config.storage_function.as_str());
        let lun = crate::exfat::policy_rejection::concat_str("lun.", decimal_string(config.storage_lun as u64).as_str());
        proof {
            reveal_strlit("functions");
            reveal_strlit("configs");
            reveal_strlit("strings/0x409");
            reveal_strlit("UDC");
            reveal_strlit("lun.");
        }
        assert(lun@ =~= lun_name(config.storage_lun));
        BootstrapPaths {
            config_strings_dir: join_path(cfg.as_str(), "strings/0x409"),
            gadget_strings_dir: join_path(g.as_str(), "strings/0x409"),
            lun_dir: join_path(s.as_str(), lun.as_str()),
            storage_link: join_path(cfg.as_str(), config.storage_function.as_str()),
            keyboard_dir: join_path(f.as_str(), config.keyboard_function.as_str()),
            keyboard_link: join_path(cfg.as_str(), config.keyboard_function.as_str()),
            mouse_dir: join_path(f.as_str(), config.mouse_function.as_str()),
            mouse_link: join_path(cfg.as_str(), config.mouse_function.as_str()),
            udc_file: join_path(g.as_str(), "UDC"),
            gadget_dir: g,
            functions_dir: f,
            config_dir: cfg,
            storage_dir: s,
        }
    }

    /// Whether the function links change: a link is missing, or adb links
    /// are to be removed and there are some.
    pub fn links_need_change(
        storage_linked: bool,
        keyboard_linked: bool,
        mouse_linked: bool,
        keep_adb: bool,
        has_adb_links: bool,
    ) -> (r: bool)
        ensures
            r == (!storage_linked || !keyboard_linked || !mouse_linked || (!keep_adb && has_adb_links)),
    {
        !storage_linked || !keyboard_linked || !mouse_linked || (!keep_adb && has_adb_links)
    }

    /// Whether the UDC is unbound while the links change: only when they
    /// change and the UDC file (`previous_udc`) names a controller.
    pub fn must_unbind(links_change: bool, previous_udc: &str) -> (r: bool)
        ensures
            r == (links_change && udc_bound(previous_udc@)),
    {
        links_change && udc_is_bound(previous_udc)
    }

    /// The controller to bind: the configured one, else the first name (in
    /// sort order) of the non-empty `available` controller names;
    /// `UdcNotFound` with the UDC root when there is none.
    pub fn udc_to_bind(config: &GadgetBootstrapConfig, available: &[String]) -> (r: Result<
        String,
        GadgetBootstrapError,
    >)
        ensures
            config.udc matches Some(u) ==> r matches Ok(n) && n@ == u@,
            config.udc is None ==> ((exists|i: int| 0 <= i < available@.len() && (#[trigger] available@[i])@.len() > 0)
                <==> r is Ok),
            config.udc is None ==> (r matches Ok(n) ==> n@.len() > 0 && (exists|i: int|
                0 <= i < available@.len() && (#[trigger] available@[i])@ == n@) && forall|k: int|
                0 <= k < available@.len() && (#[trigger] available@[k])@.len() > 0 ==> !seq_lt(
                    available@[k]@,
                    n@,
                )),
            r matches Err(e) ==> (e matches GadgetBootstrapError::UdcNotFound(root) && root@ == config.udc_root@),
    {
        match &config.udc {
            Some(u) => Ok(u.clone()),
            None => match first_udc_name(available) {
                Some(i) => Ok(available[i].clone()),
                None => Err(GadgetBootstrapError::UdcNotFound(config.udc_root.clone())),
            },
        }
    }

    /// The gadget runtime of the prepared configuration.
    pub fn runtime_for(config: &GadgetBootstrapConfig, paths: &BootstrapPaths) -> (g: GadgetRuntime)
        ensures
            g.spec_lun().gadget_name@ == config.gadget_name@,
            g.spec_lun().function_name@ == config.storage_function@,
            g.spec_lun().gadget_dir@ == paths.gadget_dir@,
            g.spec_lun().lun_dir@ == paths.lun_dir@,
            g.spec_udc_root() == config.udc_root@,
    {
        GadgetRuntime::new(
            MassStorageLun {
                gadget_name: config.gadget_name.clone(),
                function_name: config.storage_function.clone(),
                gadget_dir: paths.gadget_dir.clone(),
                lun_dir: paths.lun_dir.clone(),
            },
            config.udc_root.as_str(),
        )
    }
}

} // verus!
