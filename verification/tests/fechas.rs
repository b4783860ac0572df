use boe_completo::comprobar_formato;
use boe_completo::enlaces::construye_enlace;
use boe_completo::enlaces::espera_descargas;
use boe_completo::enlaces::informe_descargas;
use boe_completo::EnlacePDF;
use boe_completo::ErrorFecha;
use boe_completo::FechaBoe;

#[test]
fn fecha_valida() {
    let f = comprobar_formato("26-12-2024").unwrap();
    assert_eq!(f, FechaBoe { dia: 26, mes: 12, anio: 2024 });
}

#[test]
fn fecha_con_blancos_alrededor() {
    let f = comprobar_formato(" 1-2-2000\n").unwrap();
    assert_eq!(f, FechaBoe { dia: 1, mes: 2, anio: 2000 });
    let g = comprobar_formato("\u{000C}1-2-2000\u{000B}").unwrap();
    assert_eq!(g, FechaBoe { dia: 1, mes: 2, anio: 2000 });
    // El recorte tambien descarta el espacio en blanco fuera de ASCII,
    // como lo hace el recorte de la biblioteca estandar.
    let h = comprobar_formato("\u{00A0}1-2-2000\u{2003}").unwrap();
    assert_eq!(h, FechaBoe { dia: 1, mes: 2, anio: 2000 });
    // Dentro de una parte, un blanco no se recorta: la parte no es cifra.
    assert_eq!(comprobar_formato("1\u{00A0}-2-2000"), Err(ErrorFecha::NoCifra));
}

#[test]
fn fecha_con_signo_inicial_en_una_parte() {
    // Cada parte admite un `+` inicial, como la lectura de la maquina.
    let f = comprobar_formato("+1-2-2024").unwrap();
    assert_eq!(f, FechaBoe { dia: 1, mes: 2, anio: 2024 });
    let g = comprobar_formato("1-+2-+2024").unwrap();
    assert_eq!(g, FechaBoe { dia: 1, mes: 2, anio: 2024 });
    assert_eq!(comprobar_formato("+-2-2024"), Err(ErrorFecha::NoCifra));
    assert_eq!(comprobar_formato("++1-2-2024"), Err(ErrorFecha::NoCifra));
}

#[test]
fn fecha_con_pocas_partes() {
    assert_eq!(comprobar_formato("1-2"), Err(ErrorFecha::Partes));
    assert_eq!(comprobar_formato(""), Err(ErrorFecha::Partes));
    assert_eq!(comprobar_formato("1-2-3-4"), Err(ErrorFecha::Partes));
}

#[test]
fn fecha_con_parte_ilegible() {
    assert_eq!(comprobar_formato("aa-2-2000"), Err(ErrorFecha::NoCifra));
    assert_eq!(comprobar_formato("1--2000"), Err(ErrorFecha::NoCifra));
    assert_eq!(comprobar_formato("1-2-20x0"), Err(ErrorFecha::NoCifra));
}

#[test]
fn fecha_fuera_de_rango() {
    assert_eq!(comprobar_formato("32-1-2000"), Err(ErrorFecha::Dia));
    assert_eq!(comprobar_formato("1-13-2000"), Err(ErrorFecha::Mes));
    assert_eq!(comprobar_formato("1-1-1949"), Err(ErrorFecha::Anio));
    assert_eq!(comprobar_formato("1-1-2051"), Err(ErrorFecha::Anio));
}

#[test]
fn dia_y_mes_cero_se_aceptan() {
    let f = comprobar_formato("0-0-2000").unwrap();
    assert_eq!(f, FechaBoe { dia: 0, mes: 0, anio: 2000 });
}

#[test]
fn espera_por_defecto_y_configurada() {
    assert_eq!(espera_descargas(None), 3);
    assert_eq!(espera_descargas(Some("5".to_string())), 5);
    assert_eq!(espera_descargas(Some("+5".to_string())), 5);
    assert_eq!(espera_descargas(Some("cinco".to_string())), 3);
    assert_eq!(espera_descargas(Some("".to_string())), 3);
    assert_eq!(espera_descargas(Some("+".to_string())), 3);
    // Un caracter fuera de ASCII cuyo byte bajo es un digito no cuenta
    // como cifra: la espera cae al valor por defecto.
    assert_eq!(espera_descargas(Some("\u{0431}".to_string())), 3);
    assert_eq!(espera_descargas(Some("1\u{0431}".to_string())), 3);
}

#[test]
fn enlace_desde_coincidencia() {
    let e = construye_enlace(
        Some("/boe/dias/2024/12/26/pdfs/BOE-A-2024-1.pdf".to_string()),
        "Titulo".to_string(),
        &"Disposiciones y anuncios".to_string(),
    )
    .unwrap();
    assert_eq!(e.url, "https://boe.es/boe/dias/2024/12/26/pdfs/BOE-A-2024-1.pdf");
    assert_eq!(e.titulo, "Titulo");
    assert_eq!(e.apartado, "Disposiciones y anuncios");
    assert!(construye_enlace(None, "t".to_string(), &"a".to_string()).is_none());
}

#[test]
fn informe_de_descargas_con_dos_enlaces() {
    let enlaces = vec![
        EnlacePDF {
            apartado: "Notificaciones".to_string(),
            url: "https://boe.es/a.pdf".to_string(),
            titulo: "Primero".to_string(),
        },
        EnlacePDF {
            apartado: "Edictos Judiciales".to_string(),
            url: "https://boe.es/b.pdf".to_string(),
            titulo: "Segundo".to_string(),
        },
    ];
    // La cabecera sale sin salto final, tal como se escribe el informe.
    assert_eq!(
        informe_descargas(&enlaces),
        "Apartado\tT\u{00ED}tulo\tUrlNotificaciones\tPrimero\thttps://boe.es/a.pdf\nEdictos Judiciales\tSegundo\thttps://boe.es/b.pdf\n"
    );
    assert_eq!(informe_descargas(&Vec::new()), "Apartado\tT\u{00ED}tulo\tUrl");
}
