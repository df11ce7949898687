//! The rules of the desktop control panel: the interface language, the
//! form that configures a server and its validation, and the bounded buffer
//! of live log lines.
use vstd::prelude::*;
use std::collections::VecDeque;
use crate::cli::Args;
use crate::config::ServerConfig;
use crate::numeral::{dec_chars, parse_i32, parse_u16};
use crate::text::{
    ascii_lower_seq, chars_eq_str, chars_of, dec, is_prefix, lower_chars, parse_i32_spec, parse_u16_spec,
    push_str, starts_with, string_from_chars, string_of, trim, trim_chars, trim_start,
    trim_start_chars,
};

verus! {

/// The interface language.
#[derive(Clone, Copy, PartialEq, Eq, Debug, Structural)]
pub enum Lang {
    En,
    Zh,
}

impl Lang {
    /// The languages offered, in display order.
    pub const ALL: [Lang; 2] = [Lang::En, Lang::Zh];

    /// The language's own name for itself.
    pub fn native_name(self) -> (s: &'static str)
        ensures
            s@ == (match self {
                Lang::En => "English"@,
                Lang::Zh => "中文"@,
            }),
            s@.len() > 0,
    {
        proof {
            reveal_strlit("English");
            reveal_strlit("中文");
        }
        match self {
            Lang::En => "English",
            Lang::Zh => "中文",
        }
    }

    /// The language a locale text selects: Chinese for a tag that begins
    /// with `zh` (ignoring case and leading whitespace), English for any
    /// other and for none.
    pub fn from_locale(locale: Option<&str>) -> (l: Lang)
        ensures
            l == (match locale {
                Some(loc) => if is_prefix("zh"@, ascii_lower_seq(trim_start(loc@))) {
                    Lang::Zh
                } else {
                    Lang::En
                },
                None => Lang::En,
            }),
    {
        match locale {
            Some(loc) => {
                let cs = chars_of(loc);
                let t = trim_start_chars(cs.as_slice());
                let low = lower_chars(t.as_slice());
                let zh = chars_of("zh");
                if starts_with(low.as_slice(), zh.as_slice()) {
                    Lang::Zh
                } else {
                    Lang::En
                }
            },
            None => Lang::En,
        }
    }
}

/// Whether a trimmed locale value states a language: it is not empty and
/// not the `C` or `POSIX` locale.
pub open spec fn usable_locale(t: Seq<char>) -> bool {
    t.len() > 0 && t != "C"@ && t != "POSIX"@
}

/// The locale named by the locale variables, in order of precedence
/// (`LC_ALL`, `LC_MESSAGES`, `LANG`, `LANGUAGE`): the first set one whose
/// trimmed value is usable, trimmed.
pub open spec fn chosen_locale(vals: Seq<Option<String>>) -> Option<Seq<char>>
    decreases vals.len(),
{
    if vals.len() == 0 {
        None
    } else {
        match vals[0] {
            Some(v) => if usable_locale(trim(v@)) {
                Some(trim(v@))
            } else {
                chosen_locale(vals.drop_first())
            },
            None => chosen_locale(vals.drop_first()),
        }
    }
}

/// Picks the locale from the values of the locale variables, in order of
/// precedence (see [`chosen_locale`]).
pub fn locale_from_vars(vals: &Vec<Option<String>>) -> (r: Option<String>)
    ensures
        match r {
            Some(l) => chosen_locale(vals@) == Some(l@),
            None => chosen_locale(vals@) is None,
        },
{
    let n = vals.len();
    let mut i: usize = 0;
    proof {
        assert(vals@.subrange(0, n as int) =~= vals@);
    }
    while i < n
        invariant
            n == vals@.len(),
            i <= n,
            chosen_locale(vals@) == chosen_locale(vals@.subrange(i as int, n as int)),
        decreases n - i,
    {
        proof {
            let rest = vals@.subrange(i as int, n as int);
            assert(rest.drop_first() =~= vals@.subrange(i + 1, n as int));
            assert(rest[0] == vals@[i as int]);
        }
        match &vals[i] {
            Some(v) => {
                let c = chars_of(v.as_str());
                let t = trim_chars(c.as_slice());
                proof {
                    reveal_strlit("C");
                    reveal_strlit("POSIX");
                }
                if t.len() > 0 && !chars_eq_str(t.as_slice(), "C") && !chars_eq_str(
                    t.as_slice(),
                    "POSIX",
                ) {
                    return Some(string_from_chars(t.as_slice()));
                }
            },
            None => {},
        }
        i = i + 1;
    }
    proof {
        assert(vals@.subrange(n as int, n as int).len() == 0);
    }
    None
}

/// The text for the active language.
pub open spec fn tr_spec(lang: Lang, en: Seq<char>, zh: Seq<char>) -> Seq<char> {
    match lang {
        Lang::En => en,
        Lang::Zh => zh,
    }
}

/// Picks the English or the Chinese text by the active language.
pub fn tr(lang: Lang, en: &'static str, zh: &'static str) -> (s: &'static str)
    ensures
        s@ == tr_spec(lang, en@, zh@),
{
    match lang {
        Lang::En => en,
        Lang::Zh => zh,
    }
}

/// The fields of the control panel's form, as typed.
#[derive(Debug, Clone)]
pub struct ServerForm {
    pub root: String,
    pub bind: String,
    pub port: String,
    pub show_hidden: bool,
    pub max_depth: String,
    pub speed_limit: String,
    pub webdav: bool,
    pub webdav_user: String,
    pub webdav_pass: String,
    pub webui_auth: bool,
    pub open_browser: bool,
}

/// The form pre-filled from the command-line options; `root` is the root
/// as shown (resolved where it could be). A negative depth shows as empty
/// (unlimited), absent texts show as empty.
pub fn form_from_args(args: &Args, root: String) -> (f: ServerForm)
    ensures
        f.root == root,
        f.bind == args.bind,
        f.port@ == dec(args.port as nat),
        f.show_hidden == args.show_hidden,
        f.max_depth@ == (if args.max_depth < 0 {
            Seq::<char>::empty()
        } else {
            dec(args.max_depth as nat)
        }),
        f.speed_limit@ == (match args.speed_limit {
            Some(s) => s@,
            None => Seq::<char>::empty(),
        }),
        f.webdav == !args.no_webdav,
        f.webdav_user@ == (match args.webdav_user {
            Some(s) => s@,
            None => Seq::<char>::empty(),
        }),
        f.webdav_pass@ == (match args.webdav_pass {
            Some(s) => s@,
            None => Seq::<char>::empty(),
        }),
        f.webui_auth == args.webui_auth,
        f.open_browser == args.open,
{
    let max_depth = if args.max_depth < 0 {
        String::new()
    } else {
        string_from_chars(dec_chars(args.max_depth as u64).as_slice())
    };
    let speed_limit = match &args.speed_limit {
        Some(s) => s.clone(),
        None => String::new(),
    };
    let webdav_user = match &args.webdav_user {
        Some(s) => s.clone(),
        None => String::new(),
    };
    let webdav_pass = match &args.webdav_pass {
        Some(s) => s.clone(),
        None => String::new(),
    };
    ServerForm {
        root,
        bind: args.bind.clone(),
        port: string_from_chars(dec_chars(args.port as u64).as_slice()),
        show_hidden: args.show_hidden,
        max_depth,
        speed_limit,
        webdav: !args.no_webdav,
        webdav_user,
        webdav_pass,
        webui_auth: args.webui_auth,
        open_browser: args.open,
    }
}

/// What resolving the root directory of the form found.
pub enum RootCheck {
    /// It does not resolve.
    Missing,
    /// It resolves to something other than a directory.
    NotDir,
    /// It resolves to this directory.
    Dir(std::path::PathBuf),
}

/// The first problem with the form, if any, in the order they are checked:
/// the root, the bind address, the port, the depth, the speed limit, and
/// web UI authentication without a WebDAV user. `speed` is what the speed
/// parser gives for the trimmed speed text (read only when that is not
/// empty).
pub open spec fn form_error(f: ServerForm, lang: Lang, root: RootCheck, speed: Option<u64>) -> Option<
    Seq<char>,
> {
    if root is Missing {
        Some(tr_spec(lang, "Root directory does not exist"@, "根目录不存在"@) + ": "@ + f.root@)
    } else if root is NotDir {
        Some(tr_spec(lang, "Root is not a directory"@, "根路径不是目录"@) + ": "@ + f.root@)
    } else if trim(f.bind@).len() == 0 {
        Some(tr_spec(lang, "Bind address must not be empty"@, "绑定地址不能为空"@))
    } else if parse_u16_spec(trim(f.port@)) is None {
        Some(tr_spec(lang, "Invalid port"@, "端口无效"@) + ": "@ + f.port@)
    } else if trim(f.max_depth@).len() != 0 && parse_i32_spec(trim(f.max_depth@)) is None {
        Some(tr_spec(lang, "Invalid max depth"@, "最大深度无效"@) + ": "@ + f.max_depth@)
    } else if trim(f.speed_limit@).len() != 0 && speed is None {
        Some(
            tr_spec(lang, "Invalid speed limit"@, "限速无效"@) + ": "@ + f.speed_limit@ + " ("@
                + tr_spec(lang, "examples: 500k, 1m, 10m"@, "示例：500k、1m、10m"@) + ")"@,
        )
    } else if f.webui_auth && trim(f.webdav_user@).len() == 0 {
        Some(
            tr_spec(lang, "Configuration error"@, "配置错误"@)
                + ": --webui-auth requires --webdav-user"@,
        )
    } else {
        None
    }
}

fn join3(a: &str, b: &str, c: &str) -> (s: String)
    ensures
        s@ == a@ + b@ + c@,
{
    let mut v: Vec<char> = Vec::new();
    push_str(&mut v, a);
    push_str(&mut v, b);
    push_str(&mut v, c);
    string_from_chars(v.as_slice())
}

/// Validates the form into a server configuration, or gives the message
/// for its first problem (see [`form_error`]). On success the bind address
/// and the user are taken trimmed, the password as typed; an empty depth
/// is unlimited (`-1`), an empty speed limit none, an empty user or
/// password absent.
pub fn build_config(f: &ServerForm, lang: Lang, root: RootCheck, speed: Option<u64>) -> (r: Result<
    ServerConfig,
    String,
>)
    ensures
        match r {
            Err(m) => form_error(*f, lang, root, speed) == Some(m@),
            Ok(c) => {
                &&& form_error(*f, lang, root, speed) is None
                &&& root matches RootCheck::Dir(p) && c.root == p
                &&& c.bind@ == trim(f.bind@)
                &&& Some(c.port) == parse_u16_spec(trim(f.port@))
                &&& c.max_depth == (if trim(f.max_depth@).len() == 0 {
                    -1i32
                } else {
                    parse_i32_spec(trim(f.max_depth@))->0
                })
                &&& c.speed_limit == (if trim(f.speed_limit@).len() == 0 {
                    None
                } else {
                    speed
                })
                &&& c.show_hidden == f.show_hidden
                &&& c.webdav == f.webdav
                &&& c.webui_auth == f.webui_auth
                &&& (match c.webdav_user {
                    Some(u) => trim(f.webdav_user@).len() != 0 && u@ == trim(f.webdav_user@),
                    None => trim(f.webdav_user@).len() == 0,
                })
                &&& (c.webui_auth ==> c.webdav_user is Some)
                &&& (match c.webdav_pass {
                    Some(p) => f.webdav_pass@.len() != 0 && p@ == f.webdav_pass@,
                    None => f.webdav_pass@.len() == 0,
                })
            },
        },
{
    let root_path = match root {
        RootCheck::Missing => {
            return Err(
                join3(tr(lang, "Root directory does not exist", "根目录不存在"), ": ", f.root.as_str()),
            );
        },
        RootCheck::NotDir => {
            return Err(
                join3(tr(lang, "Root is not a directory", "根路径不是目录"), ": ", f.root.as_str()),
            );
        },
        RootCheck::Dir(p) => p,
    };
    let bind_cs = chars_of(f.bind.as_str());
    let bind_t = trim_chars(bind_cs.as_slice());
    if bind_t.len() == 0 {
        return Err(string_of(tr(lang, "Bind address must not be empty", "绑定地址不能为空")));
    }
    let port_cs = chars_of(f.port.as_str());
    let port_t = trim_chars(port_cs.as_slice());
    let port = match parse_u16(port_t.as_slice()) {
        Some(p) => p,
        None => {
            return Err(join3(tr(lang, "Invalid port", "端口无效"), ": ", f.port.as_str()));
        },
    };
    let depth_cs = chars_of(f.max_depth.as_str());
    let depth_t = trim_chars(depth_cs.as_slice());
    let max_depth: i32 = if depth_t.len() == 0 {
        -1
    } else {
        match parse_i32(depth_t.as_slice()) {
            Some(d) => d,
            None => {
                return Err(
                    join3(tr(lang, "Invalid max depth", "最大深度无效"), ": ", f.max_depth.as_str()),
                );
            },
        }
    };
    let speed_cs = chars_of(f.speed_limit.as_str());
    let speed_t = trim_chars(speed_cs.as_slice());
    let speed_limit = if speed_t.len() == 0 {
        None
    } else {
        match speed {
            Some(s) => Some(s),
            None => {
                let mut v: Vec<char> = Vec::new();
                push_str(&mut v, tr(lang, "Invalid speed limit", "限速无效"));
                push_str(&mut v, ": ");
                push_str(&mut v, f.speed_limit.as_str());
                push_str(&mut v, " (");
                push_str(&mut v, tr(lang, "examples: 500k, 1m, 10m", "示例：500k、1m、10m"));
                push_str(&mut v, ")");
                return Err(string_from_chars(v.as_slice()));
            },
        }
    };
    let user_cs = chars_of(f.webdav_user.as_str());
    let user_t = trim_chars(user_cs.as_slice());
    let webdav_user = if user_t.len() == 0 {
        None
    } else {
        Some(string_from_chars(user_t.as_slice()))
    };
    let webdav_pass = if f.webdav_pass.as_str().is_empty() {
        None
    } else {
        Some(f.webdav_pass.clone())
    };
    if f.webui_auth && webdav_user.is_none() {
        proof {
            reveal_strlit("");
            assert(""@ =~= Seq::<char>::empty());
        }
        return Err(
            join3(
                tr(lang, "Configuration error", "配置错误"),
                ": --webui-auth requires --webdav-user",
                "",
            ),
        );
    }
    Ok(
        ServerConfig {
            root: root_path,
            bind: string_from_chars(bind_t.as_slice()),
            port,
            show_hidden: f.show_hidden,
            max_depth,
            speed_limit,
            webdav: f.webdav,
            webdav_user,
            webdav_pass,
            webui_auth: f.webui_auth,
        },
    )
}

/// The most log lines the panel keeps.
pub const MAX_LOG_LINES: usize = 1000;

/// The newest `n` elements of `s` (all of them when there are fewer).
pub open spec fn newest<T>(s: Seq<T>, n: nat) -> Seq<T> {
    if s.len() <= n {
        s
    } else {
        s.subrange(s.len() - n, s.len() as int)
    }
}

/// The live log lines shown by the panel, oldest first, at most
/// [`MAX_LOG_LINES`] of them.
pub struct LogBuffer {
    lines: VecDeque<String>,
}

impl View for LogBuffer {
    type V = Seq<Seq<char>>;

    closed spec fn view(&self) -> Seq<Seq<char>> {
        Seq::new(self.lines@.len(), |i: int| self.lines@[i]@)
    }
}

impl LogBuffer {
    /// Whether the buffer is within its bound.
    pub closed spec fn wf(&self) -> bool {
        self.lines@.len() <= MAX_LOG_LINES
    }

    /// An empty buffer.
    pub fn new() -> (b: Self)
        ensures
            b.wf(),
            b@ == Seq::<Seq<char>>::empty(),
    {
        let b = LogBuffer { lines: VecDeque::new() };
        proof {
            assert(b@ =~= Seq::<Seq<char>>::empty());
        }
        b
    }

    /// The number of lines held.
    pub fn len(&self) -> (n: usize)
        ensures
            n == self@.len(),
    {
        self.lines.len()
    }

    /// Appends a line, dropping the oldest ones beyond the bound.
    pub fn push_line(&mut self, line: String)
        requires
            old(self).wf(),
        ensures
            final(self).wf(),
            final(self)@ == newest(old(self)@.push(line@), MAX_LOG_LINES as nat),
    {
        let ghost all = self@.push(line@);
        self.lines.push_back(line);
        proof {
            assert(self@ =~= all);
        }
        while self.lines.len() > MAX_LOG_LINES
            invariant
                self.lines@.len() <= MAX_LOG_LINES + 1,
                self@.len() == self.lines@.len(),
                all.len() >= self@.len(),
                all.len() <= MAX_LOG_LINES ==> self@.len() == all.len(),
                all.len() > MAX_LOG_LINES ==> self@.len() >= MAX_LOG_LINES,
                self@ == all.subrange(all.len() - self@.len(), all.len() as int),
            decreases self.lines@.len(),
        {
            let ghost before = self@;
            self.lines.pop_front();
            proof {
                assert(self@ =~= before.drop_first());
            }
        }
        proof {
            if all.len() <= MAX_LOG_LINES {
                assert(all.subrange(0, all.len() as int) =~= all);
            }
        }
    }

    /// The line at `i`, counting from the oldest.
    pub fn line(&self, i: usize) -> (s: &String)
        requires
            i < self@.len(),
        ensures
            s@ == self@[i as int],
    {
        &self.lines[i]
    }
}


/// The modules of the QR code that `qrcode` builds for a text (at its
/// default error correction): the side in modules and, row by row, whether
/// each module is dark; `None` where the text does not fit.
pub uninterp spec fn qr_matrix(data: Seq<char>) -> Option<(usize, Seq<bool>)>;

/// `qrcode::QrCode::new(data.as_bytes())`, as its width and the darkness of
/// its modules. The code is named, not stated; the crate's canvas holds
/// `width * width` modules, and a code is at most 177 modules wide.
#[verifier::external_body]
fn qr_modules(data: &str) -> (r: Option<(usize, Vec<bool>)>)
    ensures
        match r {
            Some((w, m)) => qr_matrix(data@) == Some((w, m@)) && m@.len() == w * w && 1 <= w
                <= 177,
            None => qr_matrix(data@) is None,
        },
{
    qrcode::QrCode::new(data.as_bytes()).ok().map(
        |c| (c.width(), c.to_colors().into_iter().map(|x| x == qrcode::Color::Dark).collect()),
    )
}

/// The blank modules around a QR code.
pub const QR_QUIET: usize = 4;

/// The pixels per module side.
pub const QR_SCALE: usize = 6;

/// Whether pixel `(x, y)` of the picture of a `w`-wide code falls on a dark
/// module (the code drawn after a quiet zone of 4 modules, 6 pixels per
/// module).
pub open spec fn qr_dark_at(w: int, m: Seq<bool>, x: int, y: int) -> bool {
    let mx = x / 6 - 4;
    let my = y / 6 - 4;
    0 <= mx < w && 0 <= my < w && m[my * w + mx]
}

/// The byte at channel `ch` of pixel `(x, y)`: black, opaque on dark
/// modules; white everywhere else.
pub open spec fn qr_byte(w: int, m: Seq<bool>, x: int, y: int, ch: int) -> u8 {
    if qr_dark_at(w, m, x, y) && ch != 3 {
        0
    } else {
        255
    }
}

/// The position of channel `ch` of pixel `(x, y)` in a picture `side`
/// pixels wide.
pub open spec fn pixel_index(side: int, x: int, y: int, ch: int) -> int {
    (y * side + x) * 4 + ch
}

/// A square RGBA picture.
pub struct QrImage {
    pub side: usize,
    pub rgba: Vec<u8>,
}

proof fn lemma_pixel_order(side: int, x: int, y: int, xx: int, yy: int, ch: int)
    requires
        0 <= x < side,
        0 <= xx < side,
        0 <= y,
        0 <= yy,
        0 <= ch < 4,
    ensures
        yy * side + xx < y * side + x ==> pixel_index(side, xx, yy, ch) < pixel_index(side, x, y, 0),
        yy * side + xx == y * side + x ==> xx == x && yy == y,
        yy * side + xx < y * side + x + 1 ==> (yy * side + xx < y * side + x || (xx == x && yy
            == y)),
        pixel_index(side, xx, yy, ch) < (yy * side + xx + 1) * 4,
{
    assert(yy * side + xx == y * side + x ==> xx == x && yy == y) by (nonlinear_arith)
        requires
            0 <= x < side,
            0 <= xx < side,
            0 <= y,
            0 <= yy,
    ;
}

/// The picture of a code `w` modules wide whose modules, row by row, are
/// `m`: black on white, after a quiet zone of [`QR_QUIET`] modules, each
/// module [`QR_SCALE`] pixels wide, as RGBA bytes row by row.
pub fn qr_raster(w: usize, m: &Vec<bool>) -> (img: QrImage)
    requires
        1 <= w <= 177,
        m@.len() == w * w,
    ensures
        img.side == (w + 8) * 6,
        img.rgba@.len() == img.side * img.side * 4,
        forall|x: int, y: int, ch: int|
            0 <= x < img.side && 0 <= y < img.side && 0 <= ch < 4 ==> #[trigger] img.rgba@[pixel_index(
                img.side as int,
                x,
                y,
                ch,
            )] == qr_byte(w as int, m@, x, y, ch),
{
    let side: usize = (w + QR_QUIET * 2) * QR_SCALE;
    proof {
        assert(side * side * 4 <= 1110 * 1110 * 4) by (nonlinear_arith)
            requires
                side <= 1110,
        ;
    }
    let mut rgba: Vec<u8> = Vec::new();
    let mut y: usize = 0;
    while y < side
        invariant
            side == (w + 8) * 6,
            1 <= w <= 177,
            m@.len() == w * w,
            y <= side,
            rgba@.len() == (y * side) * 4,
            forall|xx: int, yy: int, ch: int|
                0 <= xx < side && 0 <= yy && yy * side + xx < y * side && 0 <= ch < 4
                    ==> #[trigger] rgba@[pixel_index(side as int, xx, yy, ch)] == qr_byte(
                    w as int,
                    m@,
                    xx,
                    yy,
                    ch,
                ),
        decreases side - y,
    {
        let mut x: usize = 0;
        while x < side
            invariant
                side == (w + 8) * 6,
                1 <= w <= 177,
                m@.len() == w * w,
                y < side,
                x <= side,
                rgba@.len() == (y * side + x) * 4,
                forall|xx: int, yy: int, ch: int|
                    0 <= xx < side && 0 <= yy && yy * side + xx < y * side + x && 0 <= ch < 4
                        ==> #[trigger] rgba@[pixel_index(side as int, xx, yy, ch)] == qr_byte(
                        w as int,
                        m@,
                        xx,
                        yy,
                        ch,
                    ),
            decreases side - x,
        {
            proof {
                assert((y * side + x) * 4 + 4 <= side * side * 4) by (nonlinear_arith)
                    requires
                        y < side,
                        x < side,
                ;
            }
            let mx = x / QR_SCALE;
            let my = y / QR_SCALE;
            let dark = if mx >= QR_QUIET && mx - QR_QUIET < w && my >= QR_QUIET && my - QR_QUIET < w {
                let i = my - QR_QUIET;
                let j = mx - QR_QUIET;
                proof {
                    assert(i * w + j < w * w && w * w <= 177 * 177) by (nonlinear_arith)
                        requires
                            i < w,
                            j < w,
                            w <= 177,
                    ;
                    assert(i * w <= i * w + j);
                }
                let row = i * w;
                m[row + j]
            } else {
                false
            };
            proof {
                assert(dark == qr_dark_at(w as int, m@, x as int, y as int));
            }
            let ghost before = rgba@;
            if dark {
                rgba.push(0);
                rgba.push(0);
                rgba.push(0);
                rgba.push(255);
            } else {
                rgba.push(255);
                rgba.push(255);
                rgba.push(255);
                rgba.push(255);
            }
            proof {
                assert forall|xx: int, yy: int, ch: int|
                    0 <= xx < side && 0 <= yy && yy * side + xx < y * side + x + 1 && 0 <= ch < 4
                        implies #[trigger] rgba@[pixel_index(side as int, xx, yy, ch)] == qr_byte(
                    w as int,
                    m@,
                    xx,
                    yy,
                    ch,
                ) by {
                    lemma_pixel_order(side as int, x as int, y as int, xx, yy, ch);
                    if yy * side + xx < y * side + x {
                        assert(rgba@[pixel_index(side as int, xx, yy, ch)] == before[pixel_index(
                            side as int,
                            xx,
                            yy,
                            ch,
                        )]);
                    } else {
                        assert(pixel_index(side as int, xx, yy, ch) == before.len() + ch);
                    }
                }
            }
            x = x + 1;
        }
        proof {
            assert(y * side + side == (y + 1) * side) by (nonlinear_arith);
        }
        y = y + 1;
    }
    proof {
        assert forall|xx: int, yy: int, ch: int|
            0 <= xx < side && 0 <= yy < side && 0 <= ch < 4 implies #[trigger] rgba@[pixel_index(
            side as int,
            xx,
            yy,
            ch,
        )] == qr_byte(w as int, m@, xx, yy, ch) && 0 <= pixel_index(side as int, xx, yy, ch)
            < rgba@.len() by {
            assert(yy * side + xx < side * side) by (nonlinear_arith)
                requires
                    0 <= xx < side,
                    0 <= yy < side,
            ;
            assert(0 <= yy * side) by (nonlinear_arith)
                requires
                    0 <= yy,
                    0 <= side,
            ;
        }
    }
    QrImage { side, rgba }
}

/// The QR code picture for `data`, black on white with a quiet zone, or
/// `None` where the text does not fit in a QR code.
pub fn qr_color_image(data: &str) -> (r: Option<QrImage>)
    ensures
        match qr_matrix(data@) {
            None => r is None,
            Some((w, m)) => r matches Some(img) && img.side == (w + 8) * 6 && img.rgba@.len()
                == img.side * img.side * 4 && forall|x: int, y: int, ch: int|
                0 <= x < img.side && 0 <= y < img.side && 0 <= ch < 4 ==> #[trigger] img.rgba@[pixel_index(
                    img.side as int,
                    x,
                    y,
                    ch,
                )] == qr_byte(w as int, m, x, y, ch),
        },
{
    match qr_modules(data) {
        Some((w, m)) => Some(qr_raster(w, &m)),
        None => None,
    }
}

} // verus!
