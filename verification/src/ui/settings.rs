//! The settings page, served as HTML to its own window.
use vstd::prelude::*;
use crate::config::BrowserConfig;
use crate::text::{push_str_chars, str_chars};

verus! {

/// The page up to the hardware acceleration checkbox's state.
pub const SETTINGS_HTML_HEAD: &'static str = r#"<!DOCTYPE html>
<html>
<head>
    <meta charset="utf-8">
    <title>Configurações do Petal</title>
    <style>
        body {
            background-color: #1e1e1e;
            color: #d4d4d4;
            font-family: monospace;
            padding: 20px;
        }
        input[type="text"] {
            width: 100%;
            background: #2d2d2d;
            border: 1px solid #454545;
            color: #fff;
            padding: 5px;
            margin-top: 5px;
            margin-bottom: 15px;
        }
        button {
            background: #007acc;
            color: white;
            border: none;
            padding: 8px 16px;
            cursor: pointer;
            margin-top: 20px;
        }
        button:hover {
            background: #005f9e;
        }
        .setting {
            margin-bottom: 20px;
        }
    </style>
</head>
<body>
    <h2>Configurações</h2>
    
    <div class="setting">
        <label>
            <input type="checkbox" id="hw_accel" "#;

/// The page between the checkbox's state and the search engine's value.
pub const SETTINGS_HTML_MIDDLE: &'static str = r#">
            Aceleração de Hardware (Requer reinício do app)
        </label>
    </div>

    <div class="setting">
        <label>Motor de Busca Padrão</label>
        <input type="text" id="search_engine" value=""#;

/// The rest of the page after the search engine's value.
pub const SETTINGS_HTML_TAIL: &'static str = r#"">
        <small style="display:block;margin-top:5px;color:#888;">Use {} onde a pesquisa deve ser inserida.</small>
    </div>

    <div style="margin-top: 15px; margin-bottom: 20px; font-size: 0.85em; color: #888;">
        <i>ℹ️ As configurações são persistidas em seu Perfil Local (AppData, XDG, ou Home). O diretório de execução atual não afeta o salvamento.</i>
    </div>

    <div id="error_msg" style="color: #ff5555; display: none; margin-top: 10px; margin-bottom: 15px; font-weight: bold;"></div>

    <button onclick="save()">Salvar e Fechar</button>

    <script>
        function save() {
            var hw = document.getElementById('hw_accel').checked;
            var engine = document.getElementById('search_engine').value.trim();
            
            if (engine !== '' && engine.indexOf('{}') === -1) {
                var err = document.getElementById('error_msg');
                err.innerText = 'Erro: O motor de busca deve conter "{}" para o termo pesquisado.';
                err.style.display = 'block';
                return;
            }
            
            var payload = 'save_config:' + JSON.stringify({ hardware_acceleration: hw, search_engine: engine });
            window.ipc.postMessage(payload);
        }
    </script>
</body>
</html>"#;

/// How a character is written inside an HTML attribute value.
pub open spec fn escape_char(c: char) -> Seq<char> {
    if c == '&' {
        "&amp;"@
    } else if c == '<' {
        "&lt;"@
    } else if c == '>' {
        "&gt;"@
    } else if c == '"' {
        "&quot;"@
    } else if c == '\'' {
        "&#39;"@
    } else {
        seq![c]
    }
}

/// `s` with the five HTML-special characters written as entities.
pub open spec fn escape_html_spec(s: Seq<char>) -> Seq<char>
    decreases s.len(),
{
    if s.len() == 0 {
        Seq::empty()
    } else {
        escape_html_spec(s.drop_last()) + escape_char(s.last())
    }
}

/// The settings page for the given settings: the checkbox is checked when
/// hardware acceleration is on, and the search engine is shown escaped.
pub open spec fn settings_html_spec(hardware_acceleration: bool, search_engine: Seq<char>) -> Seq<char> {
    SETTINGS_HTML_HEAD@ + (if hardware_acceleration { "checked"@ } else { ""@ }) + SETTINGS_HTML_MIDDLE@
        + escape_html_spec(search_engine) + SETTINGS_HTML_TAIL@
}

fn escape_html(s: &str) -> (r: Vec<char>)
    ensures
        r@ == escape_html_spec(s@),
{
    let chars = str_chars(s);
    let mut out = String::new();
    let mut i: usize = 0;
    assert(chars@.take(0) =~= Seq::<char>::empty());
    while i < chars.len()
        invariant
            i <= chars@.len(),
            out@ == escape_html_spec(chars@.take(i as int)),
        decreases chars@.len() - i,
    {
        let c = chars[i];
        if c == '&' {
            push_str_chars(&mut out, "&amp;");
        } else if c == '<' {
            push_str_chars(&mut out, "&lt;");
        } else if c == '>' {
            push_str_chars(&mut out, "&gt;");
        } else if c == '"' {
            push_str_chars(&mut out, "&quot;");
        } else if c == '\'' {
            push_str_chars(&mut out, "&#39;");
        } else {
            crate::text::string_push_char(&mut out, c);
        }
        assert(chars@.take(i + 1).drop_last() =~= chars@.take(i as int));
        i += 1;
    }
    assert(chars@.take(chars@.len() as int) =~= chars@);
    str_chars(out.as_str())
}

/// The HTML of the settings page for the given settings.
pub fn get_settings_html(config: &BrowserConfig) -> (r: String)
    ensures
        r@ == settings_html_spec(config.hardware_acceleration, config.search_engine@),
{
    let mut out = String::new();
    push_str_chars(&mut out, SETTINGS_HTML_HEAD);
    if config.hardware_acceleration {
        push_str_chars(&mut out, "checked");
    } else {
        push_str_chars(&mut out, "");
    }
    push_str_chars(&mut out, SETTINGS_HTML_MIDDLE);
    let engine = escape_html(config.search_engine.as_str());
    crate::text::push_chars(&mut out, engine.as_slice());
    push_str_chars(&mut out, SETTINGS_HTML_TAIL);
    out
}

/// Text without any of `&`, `<`, `>`, `"` and `'` is shown as it is.
pub proof fn lemma_escape_plain(s: Seq<char>)
    requires
        forall|i: int| 0 <= i < s.len() ==> {
            let c = #[trigger] s[i];
            c != '&' && c != '<' && c != '>' && c != '"' && c != '\''
        },
    ensures
        escape_html_spec(s) == s,
    decreases s.len(),
{
    if s.len() > 0 {
        assert forall|i: int| 0 <= i < s.drop_last().len() implies {
            let c = #[trigger] s.drop_last()[i];
            c != '&' && c != '<' && c != '>' && c != '"' && c != '\''
        } by {
            assert(s.drop_last()[i] == s[i]);
        }
        lemma_escape_plain(s.drop_last());
        assert(s.last() == s[s.len() - 1]);
        assert(s.drop_last() + seq![s.last()] =~= s);
    }
}

/// Escaped text holds none of the characters that could end an attribute
/// value or open a tag.
pub proof fn lemma_escaped_has_no_markup(s: Seq<char>)
    ensures
        forall|i: int|
            0 <= i < escape_html_spec(s).len() ==> {
                let c = #[trigger] escape_html_spec(s)[i];
                c != '<' && c != '>' && c != '"' && c != '\''
            },
    decreases s.len(),
{
    reveal_strlit("&amp;");
    reveal_strlit("&lt;");
    reveal_strlit("&gt;");
    reveal_strlit("&quot;");
    reveal_strlit("&#39;");
    if s.len() > 0 {
        lemma_escaped_has_no_markup(s.drop_last());
        let p = escape_html_spec(s.drop_last());
        let e = escape_char(s.last());
        assert(escape_html_spec(s) == p + e);
        assert forall|i: int| 0 <= i < escape_html_spec(s).len() implies {
            let c = #[trigger] escape_html_spec(s)[i];
            c != '<' && c != '>' && c != '"' && c != '\''
        } by {
            if i < p.len() {
                assert(escape_html_spec(s)[i] == p[i]);
            } else {
                assert(escape_html_spec(s)[i] == e[i - p.len()]);
            }
        }
    }
}

} // verus!
