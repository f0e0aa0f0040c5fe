//! The built-in page templates and the style sheets and scripts that they
//! link to. A template marks the place of a variable as `{{NAME}}`.

use vstd::prelude::*;

verus! {

/// The template of a directory listing. Variables: `PATH`, `ENTRY_COUNT`,
/// `ENTRIES`.
pub const DIRECTORY_INDEX: &'static str =
    "<!DOCTYPE html>\n<html lang=\"en\">\n<head>\n    <meta charset=\"UTF-8\">\n    <meta name=\"viewport\" content=\"width=device-width, initial-scale=1.0\">\n    <title>Index of {{PATH}}</title>\n    <link rel=\"stylesheet\" href=\"/_static/directory/styles.css\">\n</head>\n<body>\n    <div class=\"container\">\n        <header class=\"header\">\n            <h1>Index of <span class=\"path\">{{PATH}}</span></h1>\n            <p class=\"summary\">{{ENTRY_COUNT}} entries</p>\n        </header>\n        <table>\n            <thead>\n                <tr>\n                    <th>Name</th>\n                    <th>Size</th>\n                    <th>Last Modified</th>\n                </tr>\n            </thead>\n            <tbody>\n                {{ENTRIES}}\n            </tbody>\n        </table>\n        <footer class=\"footer\">hdl_sv/2.0.0</footer>\n    </div>\n    <script src=\"/_static/directory/script.js\"></script>\n</body>\n</html>\n";

/// The template of an error page. Variables: `STATUS_CODE`, `STATUS_TEXT`,
/// `DESCRIPTION`.
pub const ERROR_PAGE: &'static str =
    "<!DOCTYPE html>\n<html lang=\"en\">\n<head>\n    <meta charset=\"UTF-8\">\n    <meta name=\"viewport\" content=\"width=device-width, initial-scale=1.0\">\n    <title>{{STATUS_CODE}} {{STATUS_TEXT}}</title>\n    <link rel=\"stylesheet\" href=\"/_static/error/styles.css\">\n</head>\n<body>\n    <div class=\"error-container\">\n        <div class=\"error-code\">{{STATUS_CODE}}</div>\n        <h1 class=\"error-title\">{{STATUS_TEXT}}</h1>\n        <p class=\"error-description\">{{DESCRIPTION}}</p>\n        <a href=\"/\" class=\"back-link\">&larr; Back to Files</a>\n        <footer class=\"footer\">hdl_sv/2.0.0</footer>\n    </div>\n    <script src=\"/_static/error/script.js\"></script>\n</body>\n</html>\n";

/// The style sheet of the directory listing.
pub const DIRECTORY_STYLES: &'static str =
    "/* Professional Blackish Grey Design */\n:root {\n    --bg-primary: #0a0a0a;\n    --bg-secondary: #161616;\n    --bg-hover: #222222;\n    --border: #2e2e2e;\n    --text-primary: #f1f1f1;\n    --text-secondary: #9a9a9a;\n    --accent: #60a5fa;\n}\n\n* {\n    box-sizing: border-box;\n}\n\nbody {\n    margin: 0;\n    padding: 2rem;\n    background: var(--bg-primary);\n    color: var(--text-primary);\n    font-family: -apple-system, BlinkMacSystemFont, \"Segoe UI\", sans-serif;\n}\n\n.container {\n    max-width: 960px;\n    margin: 0 auto;\n    padding: 2rem;\n    background: var(--bg-secondary);\n    border: 1px solid var(--border);\n    border-radius: 12px;\n    backdrop-filter: blur(8px);\n}\n\n.header h1 {\n    margin: 0 0 0.5rem 0;\n    font-size: 1.5rem;\n}\n\n.summary, .footer {\n    color: var(--text-secondary);\n    font-size: 0.85rem;\n}\n\ntable {\n    width: 100%;\n    border-collapse: collapse;\n    margin: 1.5rem 0;\n}\n\nth, td {\n    padding: 0.6rem 0.8rem;\n    text-align: left;\n    border-bottom: 1px solid var(--border);\n}\n\ntr:hover {\n    background: var(--bg-hover);\n}\n\n.file-link {\n    color: var(--text-primary);\n    text-decoration: none;\n}\n\n.file-link:hover {\n    color: var(--accent);\n}\n\n.file-type {\n    display: inline-block;\n    width: 0.7rem;\n    height: 0.7rem;\n    margin-right: 0.6rem;\n    border-radius: 2px;\n    background: var(--text-secondary);\n}\n\n.file-type.directory {\n    background: var(--accent);\n}\n\n.size, .date {\n    color: var(--text-secondary);\n    white-space: nowrap;\n}\n\n.loading {\n    opacity: 0.5;\n}\n";

/// The script of the directory listing.
pub const DIRECTORY_SCRIPT: &'static str =
    "// Directory listing: a loading animation on the link that was followed.\ndocument.addEventListener('DOMContentLoaded', function () {\n    var links = document.querySelectorAll('.file-link');\n    links.forEach(function (link) {\n        link.addEventListener('click', function () {\n            // loading animation\n            link.classList.add('loading');\n        });\n    });\n});\n";

/// The style sheet of the error pages.
pub const ERROR_STYLES: &'static str =
    "/* Professional Blackish Grey Error Page Design */\n:root {\n    --bg-primary: #0a0a0a;\n    --bg-secondary: #161616;\n    --border: #2e2e2e;\n    --text-primary: #f1f1f1;\n    --text-secondary: #9a9a9a;\n    --accent: #60a5fa;\n}\n\nbody {\n    margin: 0;\n    padding: 2rem;\n    background: var(--bg-primary);\n    color: var(--text-primary);\n    font-family: -apple-system, BlinkMacSystemFont, \"Segoe UI\", sans-serif;\n    text-align: center;\n}\n\n.error-container {\n    max-width: 560px;\n    margin: 10vh auto 0 auto;\n    padding: 3rem 2rem;\n    background: var(--bg-secondary);\n    border: 1px solid var(--border);\n    border-radius: 12px;\n}\n\n.error-code {\n    font-size: 5rem;\n    font-weight: 700;\n    color: var(--accent);\n}\n\n.error-title {\n    margin: 0.5rem 0;\n}\n\n.error-description, .footer {\n    color: var(--text-secondary);\n}\n\n.back-link {\n    display: inline-block;\n    margin: 1.5rem 0;\n    color: var(--accent);\n    text-decoration: none;\n}\n";

/// The script of the error pages.
pub const ERROR_SCRIPT: &'static str =
    "// Error page. Keyboard shortcuts: Escape or Backspace leads back to the files.\ndocument.addEventListener('DOMContentLoaded', function () {\n    document.addEventListener('keydown', function (event) {\n        if (event.key === 'Escape' || event.key === 'Backspace') {\n            window.location.href = '/';\n        }\n    });\n});\n";

} // verus!
