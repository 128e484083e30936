use std::sync::mpsc::channel;
use threadpool::ThreadPool;

#[test]
fn test_error_handling() {
    let pool = ThreadPool::new(4);
    let (sender, receiver) = channel();

    for i in 0..4 {
        let sender = sender.clone();
        pool.execute(move || {
            if i == 2 {
                panic!("Error controlado en la tarea {}", i);
            }
            println!("Tarea {} ejecutada.", i);
            sender.send(()).expect("Error al enviar el mensaje");
        });
    }
    drop(sender);
    for _ in 0..4 {
        if receiver.recv().is_err() {
            println!("Se capturó un error.");
        }
    }

    println!("Prueba de manejo de errores completada.");
}
