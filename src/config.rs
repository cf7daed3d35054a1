//! Client runtime configuration.
use vstd::prelude::*;

verus! {

/// Socket path used when none is configured.
pub const DEFAULT_SOCKET_PATH: &'static str = "/tmp/shift.sock";

/// Frame scheduling policy used by the runtime.
#[derive(Debug, Clone, Copy, PartialEq, Eq, Structural)]
pub enum RenderMode {
    /// Continuously render whenever a buffer becomes available.
    Eager,
    /// Render only when explicitly scheduled by the application.
    Scheduled,
}

/// Requested OpenGL/OpenGL ES version.
#[derive(Debug, Clone, Copy, PartialEq, Eq, Structural)]
pub struct GlVersion {
    pub major: u8,
    pub minor: u8,
}

/// Runtime configuration used during initialization.
#[derive(Debug, Clone)]
pub struct Config {
    token: String,
    socket_path: String,
    render_node_path: Option<String>,
    render_mode: RenderMode,
    opengl_major: u8,
    opengl_minor: u8,
}

/// The abstract content of a configuration.
pub ghost struct ConfigModel {
    pub token: Seq<char>,
    pub socket_path: Seq<char>,
    pub render_node_path: Option<Seq<char>>,
    pub render_mode: RenderMode,
    pub opengl_version: (u8, u8),
}

impl View for Config {
    type V = ConfigModel;

    closed spec fn view(&self) -> ConfigModel {
        ConfigModel {
            token: self.token@,
            socket_path: self.socket_path@,
            render_node_path: match self.render_node_path {
                Some(p) => Some(p@),
                None => None,
            },
            render_mode: self.render_mode,
            opengl_version: (self.opengl_major, self.opengl_minor),
        }
    }
}

impl Config {
    /// A configuration for the given session token, with the default
    /// socket, no render node, scheduled rendering and OpenGL 3.3.
    pub fn from_token(token: &str) -> (r: Config)
        ensures
            r@ == (ConfigModel {
                token: token@,
                socket_path: DEFAULT_SOCKET_PATH@,
                render_node_path: None,
                render_mode: RenderMode::Scheduled,
                opengl_version: (3, 3),
            }),
    {
        Config {
            token: token.to_owned(),
            socket_path: DEFAULT_SOCKET_PATH.to_owned(),
            render_node_path: None,
            render_mode: RenderMode::Scheduled,
            opengl_major: 3,
            opengl_minor: 3,
        }
    }

    /// Sets the session token used for authentication.
    pub fn set_token(&mut self, token: &str) -> (r: &mut Config)
        ensures
            (*r)@ == (ConfigModel { token: token@, ..old(self)@ }),
            *final(self) == *final(r),
    {
        self.token = token.to_owned();
        self
    }

    /// Sets the Unix socket path for server communication.
    pub fn set_socket_path(&mut self, path: &str) -> (r: &mut Config)
        ensures
            (*r)@ == (ConfigModel { socket_path: path@, ..old(self)@ }),
            *final(self) == *final(r),
    {
        self.socket_path = path.to_owned();
        self
    }

    /// Sets the DRM render node path used by GBM allocation.
    pub fn set_render_node_path(&mut self, path: &str) -> (r: &mut Config)
        ensures
            (*r)@ == (ConfigModel { render_node_path: Some(path@), ..old(self)@ }),
            *final(self) == *final(r),
    {
        self.render_node_path = Some(path.to_owned());
        self
    }

    /// Sets the render mode used by the main loop.
    pub fn set_render_mode(&mut self, mode: RenderMode) -> (r: &mut Config)
        ensures
            (*r)@ == (ConfigModel { render_mode: mode, ..old(self)@ }),
            *final(self) == *final(r),
    {
        self.render_mode = mode;
        self
    }

    /// Requests a specific OpenGL/OpenGL ES version.
    pub fn opengl_version(&mut self, major: u8, minor: u8) -> (r: &mut Config)
        ensures
            (*r)@ == (ConfigModel { opengl_version: (major, minor), ..old(self)@ }),
            *final(self) == *final(r),
    {
        self.opengl_major = major;
        self.opengl_minor = minor;
        self
    }

    /// The configured render mode.
    pub fn render_mode(&self) -> (r: RenderMode)
        ensures
            r == self@.render_mode,
    {
        self.render_mode
    }

    /// The requested OpenGL/OpenGL ES version.
    pub fn requested_opengl_version(&self) -> (r: (u8, u8))
        ensures
            r == self@.opengl_version,
    {
        (self.opengl_major, self.opengl_minor)
    }

    /// The configured session token.
    pub fn token(&self) -> (r: &str)
        ensures
            r@ == self@.token,
    {
        self.token.as_str()
    }

    /// The configured socket path.
    pub fn socket_path(&self) -> (r: &str)
        ensures
            r@ == self@.socket_path,
    {
        self.socket_path.as_str()
    }

    /// The configured render node path, if set.
    pub fn render_node_path(&self) -> (r: Option<&str>)
        ensures
            match r {
                Some(p) => self@.render_node_path == Some(p@),
                None => self@.render_node_path is None,
            },
    {
        match &self.render_node_path {
            Some(p) => Some(p.as_str()),
            None => None,
        }
    }
}

} // verus!
